//! O que o ritmo de um gerador garante: quando cada thread envia, espera e para, e o que ela conta.

use vstd::arithmetic::div_mod::{lemma_fundamental_div_mod, lemma_fundamental_div_mod_converse};
use vstd::arithmetic::power2::{lemma2_to64, lemma2_to64_rest, lemma_pow2_adds, lemma_pow2_pos, pow2};
use vstd::prelude::*;
use vstd::string::*;

use crate::arredonda::{lemma_magnitude_nula, lemma_pow2_monotona};
use crate::balanco::{lemma_razao, lemma_unidade, lemma_unidade_grande};
use crate::duracao::Duracao;
use crate::gerador::{
    acumulado, ativas, fim_do_aquecimento, lei_partes, parte, soma_das_partes, soma_dos_resultados,
    tarefa_da_thread, taxa_medida, Desfecho, Passo, Resultado, Tarefa,
};
use crate::precisao::{
    lei_produto_proximo, lei_quociente_proximo, lei_soma_exata, lei_soma_proxima,
    lemma_meia_unidade, lemma_natural_exato, lemma_produto_exato, perto,
};
use crate::proporcao::lemma_zero;
use crate::reais::{inteiro, lemma_inteiro_positivo, um, Real};

verus! {

// ---- Passos ----

/// Uma thread só para quando é interrompida, quando o tempo acaba ou quando a cota está cumprida; até
/// lá, se está atrasada, envia o que falta, em lotes de até 1024, e se não está, espera.
pub proof fn lei_passo(
    t: Tarefa,
    duracao: Duracao,
    res: Resultado,
    interrompida: bool,
    decorrido: Duracao,
)
    ensures
        ({
            let passo = t.passo(duracao, res, interrompida, decorrido);
            let acabou = interrompida || decorrido.total() >= duracao.total() || (t.cota is Some
                && res.total >= t.cota->0);
            let faltam = t.devidas(decorrido) - res.total;
            &&& passo is Encerrar <==> acabou
            &&& !acabou && faltam <= 0 ==> passo is Esperar
            &&& !acabou && 0 < faltam <= 1024 ==> passo == Passo::Enviar(faltam as u64)
            &&& !acabou && faltam > 1024 ==> passo == Passo::Enviar(1024)
        }),
{
}

/// Sem ritmo, há sempre mensagens a enviar.
pub proof fn lei_devidas_sem_ritmo(t: Tarefa, decorrido: Duracao)
    requires
        t.taxa is None,
    ensures
        t.devidas(decorrido) == u64::MAX,
{
}

/// Em segundos cheios as mensagens devidas são exatamente o tempo vezes o ritmo.
pub proof fn lei_devidas_em_segundos_cheios(t: Tarefa, segundos: u64)
    requires
        t.taxa is Some,
        t.taxa->0 < 0x20_0000_0000_0000,
        segundos < 0x20_0000_0000_0000,
        segundos * t.taxa->0 < 0x20_0000_0000_0000,
    ensures
        t.devidas(Duracao { segundos, nanos: 0 }) == segundos * t.taxa->0,
{
    let d = Duracao { segundos, nanos: 0 };
    let taxa = t.taxa->0;
    let u = um();
    lemma_zero();
    lemma_natural_exato(1_000_000_000);
    lemma_unidade();
    assert(inteiro(0) == 0) by {
        assert(0 * pow2(0) == 0);
    }
    assert(0 * u == 0);
    lemma_magnitude_nula(0, inteiro(Real::do_inteiro(1_000_000_000).mag()));
    assert(Real::do_inteiro(0).quociente(Real::do_inteiro(1_000_000_000)) == Real::do_inteiro(0));
    lei_soma_exata(segundos as nat, 0);
    lemma_produto_exato(segundos as nat, taxa as nat);
    let n = (segundos * taxa) as nat;
    lemma_natural_exato(n);
    lemma_fundamental_div_mod_converse((n * u) as int, u as int, n as int, 0);
    assert(d.total() * taxa == n * 1_000_000_000) by (nonlinear_arith)
        requires
            d.total() == segundos * 1_000_000_000,
            n == segundos * taxa,
    ;
}

/// A fração de segundo.
pub proof fn lemma_fracao_de_segundo(nanos: nat)
    requires
        nanos < 0x20_0000_0000_0000,
    ensures
        ({
            let f = Real::do_inteiro(nanos as int).quociente(Real::do_inteiro(1_000_000_000));
            &&& f.finito()
            &&& !f.negativo()
            &&& perto(
                (inteiro(f.mag()) * 1_000_000_000) as int,
                (nanos * um()) as int,
                0x20_0000_0000_0000,
            )
        }),
{
    if nanos > 0 {
        lemma_razao(nanos, 1_000_000_000);
    } else {
        lemma_zero();
        lemma_natural_exato(1_000_000_000);
        lemma_unidade();
        assert(inteiro(0) == 0) by {
            assert(0 * pow2(0) == 0);
        }
        assert(0 * um() == 0);
        lemma_magnitude_nula(0, inteiro(Real::do_inteiro(1_000_000_000).mag()));
    }
}

/// Um intervalo em segundos erra no máximo três partes em 2^53.
pub proof fn lemma_segundos_reais(d: Duracao)
    requires
        d.segundos < 0x20_0000_0000_0000,
    ensures
        ({
            let s = d.segundos_reais();
            let e = inteiro(s.mag()) * 1_000_000_000 - d.total() * um();
            &&& s.finito()
            &&& !s.negativo()
            &&& -(3 * (d.total() * um())) <= e * 0x20_0000_0000_0000 <= 3 * (d.total() * um())
        }),
{
    let u = um() as int;
    let seg = d.segundos as int;
    let f = Real::do_inteiro(d.nanos as int).quociente(Real::do_inteiro(1_000_000_000));
    let g: int = 1_000_000_000;
    let t: int = 0x20_0000_0000_0000;
    lemma_natural_exato(d.segundos as nat);
    lemma_fracao_de_segundo(d.nanos as nat);
    lemma_unidade();
    let ff = inteiro(f.mag()) as int;
    let n = d.nanos as int;
    assert(n * u >= 0 && seg * u >= 0) by (nonlinear_arith)
        requires
            n >= 0,
            seg >= 0,
            u > 0,
    ;
    assert(ff * g <= 2 * (n * u)) by (nonlinear_arith)
        requires
            (ff * g - n * u) * t <= n * u,
            t == 0x20_0000_0000_0000,
            n * u >= 0,
    ;
    lemma_unidade_grande(seg + n, 0);
    assert(seg * u + ff < pow2(2000)) by {
        assert(n * u == u * n && seg * u == u * seg) by (nonlinear_arith);
        assert(u * (seg + n) == u * seg + u * n) by (nonlinear_arith);
    }
    lei_soma_proxima(Real::do_inteiro(seg), f);
    let s = inteiro(d.segundos_reais().mag()) as int;
    let v = seg * u + ff;
    assert(d.total() * um() == g * (seg * u) + n * u) by (nonlinear_arith)
        requires
            d.total() == seg * g + n,
            u == um(),
    ;
    assert((s * g - d.total() * um()) * t == g * ((s - v) * t) + (ff * g - n * u) * t)
        by (nonlinear_arith)
        requires
            d.total() * um() == g * (seg * u) + n * u,
            v == seg * u + ff,
    ;
}

/// As mensagens devidas acompanham o ritmo: até 2^50 delas, faltam menos de duas para o tempo vezes a
/// taxa.
pub proof fn lei_devidas_acompanham(t: Tarefa, d: Duracao)
    requires
        t.taxa is Some,
        t.taxa->0 < 0x20_0000_0000_0000,
        d.segundos < 0x20_0000_0000_0000,
        d.total() * t.taxa->0 < 0x4_0000_0000_0000 * 1_000_000_000,
    ensures
        (t.devidas(d) + 2) * 1_000_000_000 > d.total() * t.taxa->0,
{
    let taxa = t.taxa->0 as int;
    let tot = d.total() as int;
    let exato = tot * taxa;
    if tot > 0 && taxa > 0 {
        lemma_produto_do_tempo(d, taxa as nat);
        let u = um() as int;
        let p = d.segundos_reais().produto(Real::do_inteiro(taxa));
        let pp = inteiro(p.mag()) as int;
        let q = pp / u;
        lemma_unidade();
        lemma_fundamental_div_mod(pp, u);
        assert(q >= 0) by (nonlinear_arith)
            requires
                pp == u * q + pp % u,
                0 <= pp % u < u,
                pp >= 0,
                u > 0,
        ;
        assert((q + 2) * 1_000_000_000 > exato) by (nonlinear_arith)
            requires
                pp == u * q + pp % u,
                pp % u < u,
                -(5 * (exato * u)) <= (pp * 1_000_000_000 - exato * u) * 0x20_0000_0000_0000,
                exato < 0x4_0000_0000_0000 * 1_000_000_000,
                exato >= 0,
                u > 0,
        ;
        assert(exato >= 0) by (nonlinear_arith)
            requires
                exato == tot * taxa,
                tot > 0,
                taxa > 0,
        ;
    } else {
        assert(exato == 0) by (nonlinear_arith)
            requires
                exato == tot * taxa,
                tot == 0 || taxa == 0,
        ;
    }
}

/// O tempo vezes a taxa erra no máximo cinco partes em 2^53.
proof fn lemma_produto_do_tempo(d: Duracao, taxa: nat)
    requires
        0 < taxa < 0x20_0000_0000_0000,
        d.segundos < 0x20_0000_0000_0000,
        d.total() > 0,
    ensures
        ({
            let p = d.segundos_reais().produto(Real::do_inteiro(taxa as int));
            let exato = d.total() * taxa;
            let e = inteiro(p.mag()) * 1_000_000_000 - exato * um();
            &&& p.finito()
            &&& !p.negativo()
            &&& -(5 * (exato * um())) <= e * 0x20_0000_0000_0000 <= 5 * (exato * um())
            &&& exato >= 0
        }),
{
    let u = um() as int;
    let tot = d.total() as int;
    let x = d.segundos_reais();
    let s = inteiro(x.mag()) as int;
    let g: int = 1_000_000_000;
    let t: int = 0x20_0000_0000_0000;
    let y = tot * u;
    let c = taxa as int;
    lemma_segundos_reais(d);
    lemma_natural_exato(taxa);
    lemma_unidade();
    assert(y >= u) by (nonlinear_arith)
        requires
            y == tot * u,
            tot >= 1,
            u > 0,
    ;
    assert(2 * (s * g) >= y && s * g <= 2 * y) by (nonlinear_arith)
        requires
            -(3 * y) <= (s * g - y) * t <= 3 * y,
            t == 0x20_0000_0000_0000,
            y >= 0,
    ;
    lemma_unidade_grande(0x1000_0000_0000_0000, 0x100_0000);
    assert(s >= 0x10_0000_0000_0000);
    lemma2_to64();
    lemma2_to64_rest();
    assert(tot <= 0x40_0000_0000_0000 * g);
    assert(s <= u * 0x1_0000_0000_0000_0000) by (nonlinear_arith)
        requires
            s * g <= 2 * y,
            y == tot * u,
            tot <= 0x40_0000_0000_0000 * g,
            g == 1_000_000_000,
            u > 0,
    ;
    assert(s * (c * u) >= u * 0x10_0000_0000_0000) by (nonlinear_arith)
        requires
            s >= 0x10_0000_0000_0000,
            c >= 1,
            u > 0,
    ;
    assert(s * (c * u) < u * pow2(2000)) by {
        lemma_pow2_adds(64, 53);
        lemma_pow2_monotona(118, 926);
        lemma_pow2_adds(117, 1);
        lemma_pow2_pos(117);
        assert(s * c <= u * pow2(117)) by (nonlinear_arith)
            requires
                s <= u * 0x1_0000_0000_0000_0000,
                0 <= c <= 0x20_0000_0000_0000,
                pow2(117) == 0x1_0000_0000_0000_0000 * 0x20_0000_0000_0000,
                u > 0,
                s >= 0,
        ;
        assert(s * (c * u) < u * (u * pow2(926))) by (nonlinear_arith)
            requires
                s * c <= u * pow2(117),
                pow2(117) < pow2(926),
                u > 0,
        ;
    }
    lei_produto_proximo(x, Real::do_inteiro(c));
    let p = inteiro(x.produto(Real::do_inteiro(c)).mag()) as int;
    assert(-(s * c) <= (p - s * c) * t <= s * c) by (nonlinear_arith)
        requires
            -(s * (c * u)) <= (p * u - s * (c * u)) * t <= s * (c * u),
            u > 0,
    ;
    let e1 = (p - s * c) * t;
    let e2 = (s * g - y) * t;
    assert(e1 * g == (p * g - s * c * g) * t) by (nonlinear_arith)
        requires
            e1 == (p - s * c) * t,
    ;
    assert(e2 * c == (s * c * g - y * c) * t) by (nonlinear_arith)
        requires
            e2 == (s * g - y) * t,
    ;
    let exato = tot * c;
    assert(exato * u == y * c) by (nonlinear_arith)
        requires
            exato == tot * c,
            y == tot * u,
    ;
    assert(s * c * g <= 2 * (y * c)) by (nonlinear_arith)
        requires
            s * g <= 2 * y,
            c >= 0,
    ;
    assert(-(3 * (y * c)) <= e2 * c <= 3 * (y * c)) by (nonlinear_arith)
        requires
            -(3 * y) <= e2 <= 3 * y,
            c >= 0,
    ;
    assert(exato >= 0) by (nonlinear_arith)
        requires
            exato == tot * c,
            tot >= 0,
            c >= 0,
    ;
}

// ---- Repartição ----

/// A soma dos ritmos das `k` primeiras threads.
pub open spec fn soma_dos_ritmos(taxa: u64, total: u64, n: usize, k: int) -> int
    decreases k,
{
    if k <= 0 {
        0
    } else {
        soma_dos_ritmos(taxa, total, n, k - 1) + tarefa_da_thread(taxa, total, n, k - 1).taxa->0
    }
}

proof fn lemma_parte_em_64_bits(total: u64, n: usize, i: int)
    requires
        0 <= i < n,
    ensures
        0 <= parte(total, n, i) <= total,
{
    let q = total as int / n as int;
    lemma_fundamental_div_mod(total as int, n as int);
    assert(n * q >= q) by (nonlinear_arith)
        requires
            n >= 1,
            q >= 0,
    ;
    assert(q >= 0 && total as int % n as int >= 0);
}

proof fn lemma_soma_dos_ritmos(taxa: u64, total: u64, n: usize, k: int)
    requires
        taxa > 0,
        0 <= k <= n,
    ensures
        soma_dos_ritmos(taxa, total, n, k) == soma_das_partes(taxa, n, k),
    decreases k,
{
    if k > 0 {
        lemma_soma_dos_ritmos(taxa, total, n, k - 1);
        lemma_parte_em_64_bits(taxa, n, k - 1);
    }
}

/// Os ritmos das threads somam a taxa do gerador e diferem em no máximo um; sem taxa nenhuma tem
/// ritmo, e sem total nenhuma tem cota.
pub proof fn lei_ritmos(taxa: u64, total: u64, n: usize, i: int, j: int)
    requires
        n > 0,
        0 <= i < n,
        0 <= j < n,
    ensures
        ({
            let a = tarefa_da_thread(taxa, total, n, i);
            let b = tarefa_da_thread(taxa, total, n, j);
            &&& a.taxa is Some <==> taxa > 0
            &&& a.cota is Some <==> total > 0
            &&& taxa > 0 ==> soma_dos_ritmos(taxa, total, n, n as int) == taxa
            &&& taxa > 0 ==> a.taxa->0 - b.taxa->0 <= 1
            &&& total > 0 && (taxa == 0 || taxa >= n) ==> a.cota->0 - b.cota->0 <= 1
            &&& total > 0 && i < taxa < n && j < taxa ==> a.cota->0 - b.cota->0 <= 1
            &&& total > 0 && 0 < taxa < n && i >= taxa ==> a.cota == Some(0u64) && a.taxa == Some(
                0u64,
            )
        }),
{
    if taxa > 0 {
        lemma_soma_dos_ritmos(taxa, total, n, n as int);
        lei_partes(taxa, n);
        lemma_parte_em_64_bits(taxa, n, i);
        lemma_parte_em_64_bits(taxa, n, j);
    }
    if total > 0 && (taxa == 0 || taxa >= n) {
        assert(ativas(taxa, n) == n);
        lei_partes(total, n);
        lemma_parte_em_64_bits(total, n, i);
        lemma_parte_em_64_bits(total, n, j);
    }
    if total > 0 && 0 < taxa < n {
        let enviam = taxa as usize;
        assert(ativas(taxa, n) == enviam);
        lei_partes(total, enviam);
        if i < taxa && j < taxa {
            lemma_parte_em_64_bits(total, enviam, i);
            lemma_parte_em_64_bits(total, enviam, j);
        }
        assert(taxa as int / n as int == 0 && taxa as int % n as int == taxa) by (nonlinear_arith)
            requires
                0 <= taxa < n,
        ;
    }
}

// ---- Contagem ----

/// Uma thread conta como enviada cada mensagem que saiu, como útil cada uma delas enviada depois do
/// aquecimento, e como erro cada uma que falhou.
pub proof fn lei_contagem_dos_envios(envios: Seq<(Desfecho, i128)>, inicio: i128)
    requires
        envios.len() <= u64::MAX,
    ensures
        ({
            let r = acumulado(envios, inicio);
            &&& r.total == envios.filter(|e: (Desfecho, i128)| e.0 is Enviado).len()
            &&& r.uteis == envios.filter(
                |e: (Desfecho, i128)| e.0 is Enviado && e.1 >= inicio,
            ).len()
            &&& r.erros == envios.filter(|e: (Desfecho, i128)| e.0 is Falhou).len()
            &&& r.total + r.erros == envios.len()
            &&& r.uteis <= r.total
        }),
    decreases envios.len(),
{
    reveal(Seq::filter);
    if envios.len() > 0 {
        lei_contagem_dos_envios(envios.drop_last(), inicio);
    }
}

/// Um envio a mais: o que saiu conta uma mensagem e os seus bytes, e é útil se não é do aquecimento; o que
/// falhou conta um erro e nada mais. As contas são em 64 bits.
pub proof fn lei_mais_um_envio(
    envios: Seq<(Desfecho, i128)>,
    inicio: i128,
    bytes: u64,
    agora: i128,
)
    ensures
        ({
            let a = acumulado(envios, inicio);
            let b = acumulado(envios.push((Desfecho::Enviado { bytes }, agora)), inicio);
            let c = acumulado(envios.push((Desfecho::Falhou, agora)), inicio);
            let m = 0x1_0000_0000_0000_0000;
            &&& b.total == (a.total + 1) % m
            &&& b.bytes == (a.bytes + bytes) % m
            &&& agora >= inicio ==> b.uteis == (a.uteis + 1) % m
            &&& agora < inicio ==> b.uteis == a.uteis
            &&& b.erros == a.erros
            &&& c.total == a.total
            &&& c.bytes == a.bytes
            &&& c.uteis == a.uteis
            &&& c.erros == (a.erros + 1) % m
        }),
{
    assert(envios.push((Desfecho::Enviado { bytes }, agora)).drop_last() =~= envios);
    assert(envios.push((Desfecho::Falhou, agora)).drop_last() =~= envios);
}

/// Um resultado a mais soma o que ele conta; uma thread perdida soma um erro. As somas são em 64 bits.
pub proof fn lei_mais_um_resultado(rs: Seq<Option<Resultado>>, r: Resultado)
    ensures
        ({
            let a = soma_dos_resultados(rs);
            let b = soma_dos_resultados(rs.push(Some(r)));
            let c = soma_dos_resultados(rs.push(None));
            let m = 0x1_0000_0000_0000_0000;
            &&& b.total == (a.total + r.total) % m
            &&& b.uteis == (a.uteis + r.uteis) % m
            &&& b.bytes == (a.bytes + r.bytes) % m
            &&& b.erros == (a.erros + r.erros) % m
            &&& c.total == a.total
            &&& c.uteis == a.uteis
            &&& c.bytes == a.bytes
            &&& c.erros == (a.erros + 1) % m
            &&& soma_dos_resultados(Seq::empty()).total == 0
            &&& soma_dos_resultados(Seq::empty()).uteis == 0
            &&& soma_dos_resultados(Seq::empty()).bytes == 0
            &&& soma_dos_resultados(Seq::empty()).erros == 0
        }),
{
    assert(rs.push(Some(r)).drop_last() =~= rs);
    assert(rs.push(None::<Resultado>).drop_last() =~= rs);
}

// ---- Instantes ----

/// O aquecimento de um número inteiro de segundos acaba exatamente esses segundos depois do início.
pub proof fn lei_fim_do_aquecimento(inicio: i128, segundos: nat)
    requires
        segundos * 1_000_000_000 < 0x20_0000_0000_0000,
        inicio + segundos * 1_000_000_000 <= i128::MAX,
    ensures
        fim_do_aquecimento(inicio, Real::do_inteiro(segundos as int)) == inicio + segundos
            * 1_000_000_000,
{
    let n = (segundos * 1_000_000_000) as nat;
    lemma_produto_exato(segundos, 1_000_000_000);
    lemma_natural_exato(n);
    lemma_unidade();
    lemma_fundamental_div_mod_converse((n * um()) as int, um() as int, n as int, 0);
}

/// O aquecimento acaba, a menos do arredondamento e de um nanossegundo, o tempo pedido depois do
/// início.
pub proof fn lei_fim_do_aquecimento_proximo(inicio: i128, aquecimento: Real)
    requires
        aquecimento.finito(),
        !aquecimento.negativo(),
        um() <= inteiro(aquecimento.mag()) * 1_000_000_000,
        inteiro(aquecimento.mag()) < um() * 0x1_0000_0000,
        inicio <= 0x1_0000_0000_0000_0000_0000_0000,
    ensures
        ({
            let d = fim_do_aquecimento(inicio, aquecimento) - inicio;
            let x = inteiro(aquecimento.mag()) * 1_000_000_000;
            &&& d * um() * 0x20_0000_0000_0000 <= x * (0x20_0000_0000_0000 + 1)
            &&& (d + 1) * um() * 0x20_0000_0000_0000 > x * (0x20_0000_0000_0000 - 1)
        }),
{
    let u = um() as int;
    let a = inteiro(aquecimento.mag()) as int;
    let g: int = 1_000_000_000;
    let t: int = 0x20_0000_0000_0000;
    let bilhao = Real::do_inteiro(1_000_000_000);
    lemma_natural_exato(1_000_000_000);
    lemma_unidade();
    lemma_unidade_grande(0x10_0000_0000_0000, 0x1_0000_0000_0000);
    lemma2_to64();
    lemma_pow2_monotona(64, 926);
    lemma_pow2_adds(1, 925);
    lemma_pow2_monotona(64, 925);
    assert(a * (g * u) >= u * 0x10_0000_0000_0000) by (nonlinear_arith)
        requires
            u <= a * g,
            0x10_0000_0000_0000 <= u,
    ;
    assert(a * (g * u) < u * pow2(2000)) by {
        assert(a * g <= u * 0x1_0000_0000_0000_0000) by (nonlinear_arith)
            requires
                a < u * 0x1_0000_0000,
                g == 1_000_000_000,
                u > 0,
        ;
        assert(u * 0x1_0000_0000_0000_0000 < u * pow2(926)) by (nonlinear_arith)
            requires
                0x1_0000_0000_0000_0000 < pow2(926),
                u > 0,
        ;
        assert(a * (g * u) < u * (u * pow2(926))) by (nonlinear_arith)
            requires
                a * g < u * pow2(926),
                u > 0,
        ;
    }
    lei_produto_proximo(aquecimento, bilhao);
    let p = inteiro(aquecimento.produto(bilhao).mag()) as int;
    assert(-(a * g) <= (p - a * g) * t <= a * g) by (nonlinear_arith)
        requires
            -(a * (g * u)) <= (p * u - a * (g * u)) * t <= a * (g * u),
            u > 0,
    ;
    let q = p / u;
    lemma_fundamental_div_mod(p, u);
    assert(0 <= q < 0x8000_0000_0000_0000_0000) by (nonlinear_arith)
        requires
            p == u * q + p % u,
            0 <= p % u < u,
            p >= 0,
            (p - a * g) * t <= a * g,
            t == 0x20_0000_0000_0000,
            a < u * 0x1_0000_0000,
            g == 1_000_000_000,
            a >= 0,
            u > 0,
    ;
    let d = fim_do_aquecimento(inicio, aquecimento) - inicio;
    assert(d == q);
    assert(d * u == u * q) by (nonlinear_arith)
        requires
            d == q,
    ;
    assert((d + 1) * u == u * q + u) by (nonlinear_arith)
        requires
            d == q,
    ;
    let x = a * g;
    assert(p * 0x20_0000_0000_0000 <= x * (0x20_0000_0000_0000 + 1) && p * 0x20_0000_0000_0000 >= x
        * (0x20_0000_0000_0000 - 1)) by (nonlinear_arith)
        requires
            -x <= (p - x) * t <= x,
            t == 0x20_0000_0000_0000,
    ;
    assert(u * q <= p < u * q + u);
}

/// A duração em nanossegundos é a mais próxima da pedida: erra no máximo meio nanossegundo.
pub proof fn lei_nanos_proximos(x: Real)
    ensures
        -(um() as int) <= 2 * (x.nanos() * um() - inteiro(x.mag()) * 1_000_000_000) <= um(),
{
    lemma_unidade();
    lemma_meia_unidade(inteiro(x.mag()) * 1_000_000_000, um());
}

/// A taxa medida vezes a janela é o que se enviou de útil, a menos do arredondamento; sem janela é
/// zero.
pub proof fn lei_taxa_medida(uteis: u64, inicio: i128, fim: i128)
    requires
        i128::MIN <= fim - inicio < 0x20_0000_0000_0000,
        uteis < 0x20_0000_0000_0000,
    ensures
        fim <= inicio ==> taxa_medida(uteis, inicio, fim) == Real::do_inteiro(0),
        fim > inicio && uteis > 0 ==> ({
            let r = taxa_medida(uteis, inicio, fim);
            &&& r.finito()
            &&& !r.negativo()
            &&& perto(
                inteiro(r.mag()) * (fim - inicio),
                (uteis * 1_000_000_000 * um()) as int,
                0x8_0000_0000_0000,
            )
        }),
{
    let d = fim - inicio;
    let u = um() as int;
    let bilhao = Real::do_inteiro(1_000_000_000);
    lemma_zero();
    lemma_natural_exato(1_000_000_000);
    lemma_unidade();
    assert(inteiro(0) == 0) by {
        assert(0 * pow2(0) == 0);
    }
    assert(bilhao.mag() > 0);
    if fim <= inicio {
        lemma_quociente_sem_sinal(d, bilhao);
    } else if uteis > 0 {
        lemma_razao(d as nat, 1_000_000_000);
        let janela = Real::do_inteiro(d).quociente(bilhao);
        let w = inteiro(janela.mag()) as int;
        let g: int = 1_000_000_000;
        let t: int = 0x20_0000_0000_0000;
        let a = uteis as int;
        let y = d * u;
        assert(y >= u && y <= 0x20_0000_0000_0000 * u) by (nonlinear_arith)
            requires
                y == d * u,
                1 <= d <= 0x20_0000_0000_0000,
                u > 0,
        ;
        assert(2 * (w * g) >= y && w * g <= 2 * y) by (nonlinear_arith)
            requires
                -y <= (w * g - y) * t <= y,
                t == 0x20_0000_0000_0000,
                y >= 0,
        ;
        lemma_unidade_grande(0x1_0000_0000_0000_0000, 0x100_0000_0000);
        lemma_unidade_grande(a, 0);
        assert(w >= 1);
        assert(janela.mag() > 0);
        lemma_natural_exato(uteis as nat);
        assert(a * u >= u) by (nonlinear_arith)
            requires
                a >= 1,
                u > 0,
        ;
        assert((a * u) * u >= w * 0x10_0000_0000_0000) by (nonlinear_arith)
            requires
                a * u >= u,
                w * 1_000_000_000 <= 2 * y,
                y <= 0x20_0000_0000_0000 * u,
                u >= 0x1_0000_0000_0000_0000 * 0x100_0000_0000,
        ;
        assert((a * u) * u < w * pow2(2000)) by {
            assert(a * u == u * a) by (nonlinear_arith);
            assert(w * 4_000_000_000 >= u);
            lemma2_to64();
            lemma_pow2_adds(85, 1915);
            lemma_pow2_adds(32, 53);
            lemma2_to64_rest();
            lemma_pow2_monotona(1074, 1915);
            lemma_pow2_pos(1915);
            assert(pow2(2000) == 0x1_0000_0000 * (0x20_0000_0000_0000 * pow2(1915)))
                by (nonlinear_arith)
                requires
                    pow2(2000) == pow2(85) * pow2(1915),
                    pow2(85) == 0x1_0000_0000 * 0x20_0000_0000_0000,
            ;
            assert(a * u < 0x20_0000_0000_0000 * pow2(1915)) by (nonlinear_arith)
                requires
                    0 <= a < 0x20_0000_0000_0000,
                    u <= pow2(1915),
                    u > 0,
            ;
            assert((a * u) * u < w * (0x1_0000_0000 * (0x20_0000_0000_0000 * pow2(1915))))
                by (nonlinear_arith)
                requires
                    0 <= a * u < 0x20_0000_0000_0000 * pow2(1915),
                    w * 0x1_0000_0000 >= u,
                    u > 0,
            ;
        }
        lei_quociente_proximo(Real::do_inteiro(a), janela);
        let q = inteiro(Real::do_inteiro(a).quociente(janela).mag()) as int;
        lemma_taxa_vezes_janela(q, w, d, a, u);
        assert(uteis * 1_000_000_000 * um() == a * g * u) by (nonlinear_arith)
            requires
                a == uteis,
                g == 1_000_000_000,
                u == um(),
        ;
    }
}

/// O erro do quociente por uma janela que já foi arredondada.
proof fn lemma_taxa_vezes_janela(q: int, w: int, d: int, a: int, u: int)
    requires
        u > 0,
        w > 0,
        d > 0,
        a > 0,
        q >= 0,
        perto(w * 1_000_000_000, d * u, 0x20_0000_0000_0000),
        perto(q * w, (a * u) * u, 0x20_0000_0000_0000),
    ensures
        perto(q * d, a * 1_000_000_000 * u, 0x8_0000_0000_0000),
{
    let g: int = 1_000_000_000;
    let t: int = 0x20_0000_0000_0000;
    let y = d * u;
    let z = (a * u) * u;
    let e1 = (w * g - y) * t;
    let e2 = (q * w - z) * t;
    assert(z > 0 && y > 0) by (nonlinear_arith)
        requires
            z == (a * u) * u,
            y == d * u,
            a > 0,
            d > 0,
            u > 0,
    ;
    assert(e1 * q == (q * w * g - q * y) * t) by (nonlinear_arith)
        requires
            e1 == (w * g - y) * t,
    ;
    assert(e2 * g == (q * w * g - z * g) * t) by (nonlinear_arith)
        requires
            e2 == (q * w - z) * t,
    ;
    assert(-(q * y) <= e1 * q <= q * y) by (nonlinear_arith)
        requires
            -y <= e1 <= y,
            q >= 0,
    ;
    // q * y fica perto de z * g.
    assert(q * y <= 2 * (z * g)) by (nonlinear_arith)
        requires
            e1 * q == (q * w * g - q * y) * t,
            e2 * g == (q * w * g - z * g) * t,
            e1 * q >= -(q * y),
            -(q * y) <= e1 * q <= q * y,
            e2 <= z,
            g == 1_000_000_000,
            t == 0x20_0000_0000_0000,
            z > 0,
    ;
    assert((q * y - z * g) * t == e2 * g - e1 * q);
    assert(-(z * g) <= e2 * g <= z * g) by (nonlinear_arith)
        requires
            -z <= e2 <= z,
            g == 1_000_000_000,
    ;
    let s: int = 0x8_0000_0000_0000;
    assert(-(z * g) <= (q * y - z * g) * s <= z * g);
    let m = q * d;
    let n = a * g * u;
    assert(q * y == m * u) by (nonlinear_arith)
        requires
            y == d * u,
            m == q * d,
    ;
    assert(z * g == n * u) by (nonlinear_arith)
        requires
            z == (a * u) * u,
            n == a * g * u,
    ;
    assert(-n <= (m - n) * s <= n) by (nonlinear_arith)
        requires
            -(n * u) <= (m * u - n * u) * s <= n * u,
            u > 0,
    ;
}

proof fn lemma_quociente_sem_sinal(d: int, b: Real)
    requires
        d <= 0,
        b.finito(),
        !b.negativo(),
        b.mag() > 0,
    ensures
        !Real::do_inteiro(0).menor(Real::do_inteiro(d).quociente(b)),
{
    lemma_zero();
    lemma_inteiro_positivo(b.mag());
    assert(inteiro(0) == 0) by {
        assert(0 * pow2(0) == 0);
    }
    assert(0 * um() == 0);
    lemma_magnitude_nula(0, inteiro(b.mag()));
}

} // verus!
