//! O que a contagem dos logs e das latências garante.

use vstd::arithmetic::power2::{lemma2_to64, lemma_pow2_adds, lemma_pow2_pos, pow2};
use vstd::multiset::Multiset;
use vstd::prelude::*;

use crate::arredonda::{bits, lemma_bits_limites};
use crate::balanco::{lemma_razao, lemma_razao_vezes, lemma_unidade};
use crate::config::nome_do_receptor;
use crate::latencias::{
    alvo, fracao, largura, lei_percentil, lei_percentil_existe, percentil, piso_da_faixa,
    quantos_ate, registradas, topo_da_faixa,
};
use crate::medidas::lei_contadores;
use crate::metricas::{
    classes, coletado, latencias, lei_contador_do_gerador, linhas_de, todas_as_linhas, Agregado,
    ClasseVista, EstatReceptor,
};
use crate::precisao::perto;
use crate::reais::{inteiro, um, Real};
use crate::tabela::{contagem, lei_obtido_inserido, soma};

verus! {

// ---- Linhas ----

/// As linhas de vários logs são as de cada um, na ordem; um receptor sem log não tem nenhuma.
pub proof fn lei_todas_as_linhas(
    a: Seq<Option<Vec<Option<String>>>>,
    b: Seq<Option<Vec<Option<String>>>>,
)
    ensures
        todas_as_linhas(a + b) == todas_as_linhas(a) + todas_as_linhas(b),
        b.len() == 1 ==> todas_as_linhas(b) == match b[0] {
            Some(linhas) => linhas@,
            None => Seq::empty(),
        },
    decreases b.len(),
{
    if b.len() == 0 {
        assert(a + b =~= a);
    } else {
        lei_todas_as_linhas(a, b.drop_last());
        assert((a + b).drop_last() =~= a + b.drop_last());
        assert(todas_as_linhas(a + b) =~= todas_as_linhas(a) + todas_as_linhas(b));
        if b.len() == 1 {
            assert(todas_as_linhas(b) =~= linhas_de(b[0]));
        }
    }
}

// ---- Receptores ----

/// O que se coleta de um receptor: o nome dele, quantas das suas linhas são de mensagens recebidas, e
/// quantas de cada gerador.
pub proof fn lei_coletado(
    est: EstatReceptor,
    i: nat,
    log: Option<Vec<Option<String>>>,
    inicio: Seq<(Seq<char>, i128)>,
    gerador: Seq<char>,
)
    requires
        coletado(est, i, log, inicio),
        linhas_de(log).len() <= u64::MAX,
    ensures
        ({
            let ks = classes(linhas_de(log), inicio);
            &&& est.nome@ == nome_do_receptor(i)
            &&& est.recebidas == ks.filter(|k: ClasseVista| k is Recebida).len()
            &&& contagem(est.por_gerador@, gerador) == ks.filter(
                |k: ClasseVista| k is Recebida && k->gerador == gerador,
            ).len()
            &&& registradas(est.latencia) == latencias(Multiset::empty(), ks)
        }),
{
    let ks = classes(linhas_de(log), inicio);
    lei_contadores(ks, gerador);
    lei_contador_do_gerador(ks, gerador);
}

/// Uma mensagem recebida conta uma a mais no receptor e no seu gerador, e a sua latência, se há, fica
/// registrada; os outros geradores ficam como estavam.
pub proof fn lei_receptor_apos_mensagem(
    antes: EstatReceptor,
    depois: EstatReceptor,
    gerador: Seq<char>,
    latencia_us: Option<u64>,
    outro: Seq<char>,
)
    requires
        depois.apos(antes, seq![ClasseVista::Recebida { gerador, latencia_us }]),
        contagem(antes.por_gerador@, gerador) < u64::MAX,
        outro != gerador,
    ensures
        depois.nome == antes.nome,
        depois.recebidas == antes.recebidas + 1,
        contagem(depois.por_gerador@, gerador) == contagem(antes.por_gerador@, gerador) + 1,
        contagem(depois.por_gerador@, outro) == contagem(antes.por_gerador@, outro),
        latencia_us matches Some(us) ==> registradas(depois.latencia) == registradas(
            antes.latencia,
        ).insert(us),
        latencia_us is None ==> registradas(depois.latencia) == registradas(antes.latencia),
{
    let k = ClasseVista::Recebida { gerador, latencia_us };
    let ks = seq![k];
    assert(ks.drop_last() =~= Seq::empty() && ks.last() == k);
    reveal_with_fuel(crate::metricas::recebidas, 2);
    reveal_with_fuel(crate::metricas::por_gerador, 2);
    reveal_with_fuel(crate::metricas::latencias, 2);
    let n = (contagem(antes.por_gerador@, gerador) + 1) as u64;
    lei_obtido_inserido(antes.por_gerador@, gerador, n, outro);
}

/// Uma linha que não é de mensagem recebida não muda nada no receptor.
pub proof fn lei_receptor_apos_outra_linha(
    antes: EstatReceptor,
    depois: EstatReceptor,
    k: ClasseVista,
)
    requires
        depois.apos(antes, seq![k]),
        !(k is Recebida),
    ensures
        depois.nome == antes.nome,
        depois.recebidas == antes.recebidas,
        depois.por_gerador@ == antes.por_gerador@,
        registradas(depois.latencia) == registradas(antes.latencia),
{
    let ks = seq![k];
    assert(ks.drop_last() =~= Seq::empty() && ks.last() == k);
    reveal_with_fuel(crate::metricas::recebidas, 2);
    reveal_with_fuel(crate::metricas::por_gerador, 2);
    reveal_with_fuel(crate::metricas::latencias, 2);
}

/// Cada linha sobe exatamente o contador da sua classe no agregado; a recebida sem latência também conta
/// como anomalia.
pub proof fn lei_agregado_apos_linha(antes: Agregado, depois: Agregado, k: ClasseVista)
    requires
        depois.apos(antes, seq![k]),
    ensures
        depois.total_recebidas == antes.total_recebidas + if k is Recebida {
            1int
        } else {
            0int
        },
        depois.descartadas_aquecimento == antes.descartadas_aquecimento + if k is Aquecimento {
            1int
        } else {
            0int
        },
        depois.linhas_invalidas == antes.linhas_invalidas + if k is Invalida {
            1int
        } else {
            0int
        },
        depois.anomalias_relogio == antes.anomalias_relogio + if k is Recebida
            && k->latencia_us is None {
            1int
        } else {
            0int
        },
        !(k is Recebida) ==> depois.recebidas_por_gerador@ == antes.recebidas_por_gerador@,
        k is Recebida && contagem(antes.recebidas_por_gerador@, k->gerador) < u64::MAX ==> contagem(
            depois.recebidas_por_gerador@,
            k->gerador,
        ) == contagem(antes.recebidas_por_gerador@, k->gerador) + 1,
        depois.receptores == antes.receptores,
{
    let ks = seq![k];
    assert(ks.drop_last() =~= Seq::empty() && ks.last() == k);
    reveal_with_fuel(crate::metricas::recebidas, 2);
    reveal_with_fuel(crate::metricas::do_aquecimento, 2);
    reveal_with_fuel(crate::metricas::invalidas, 2);
    reveal_with_fuel(crate::metricas::anomalias, 2);
    reveal_with_fuel(crate::metricas::por_gerador, 2);
    if k is Recebida {
        let t = antes.recebidas_por_gerador@;
        let g = k->gerador;
        lei_obtido_inserido(t, g, (contagem(t, g) + 1) as u64, g);
    }
}

/// Num receptor válido as mensagens de cada gerador somam as recebidas, e as latências não passam delas;
/// num agregado válido, também somam.
pub proof fn lei_contadores_somam(est: EstatReceptor, ag: Agregado)
    requires
        est.valida(),
        ag.valida(),
    ensures
        soma(est.por_gerador@) == est.recebidas,
        registradas(est.latencia).len() <= est.recebidas,
        soma(ag.recebidas_por_gerador@) == ag.total_recebidas,
{
}

// ---- Percentis ----

/// O alvo de um percentil é a sua parte dos valores, para cima: nunca menos do que ela, e no máximo um
/// a mais.
pub proof fn lei_alvo(p: u8, n: nat)
    requires
        0 < p <= 100,
        0 < n < 0x400_0000_0000,
    ensures
        p * n <= 100 * alvo(p, n) <= p * n + 100,
{
    let u = um() as int;
    let t: int = 0x8_0000_0000_0000;
    lemma_unidade();
    lemma_razao(p as nat, 100);
    let f = fracao(p);
    lemma_razao_vezes(f, p as nat, 100, n);
    let x = f.produto(Real::do_inteiro(n as int));
    let xi = inteiro(x.mag()) as int;
    let pn = p * n;
    let y = pn * u;
    assert(y == (n * p as nat * um()) as int) by (nonlinear_arith)
        requires
            y == pn * u,
            pn == p * n,
            u == um(),
    ;
    assert(perto(xi * 100, y, t));
    let e = xi * 100 - y;
    assert(0 < pn < 0x1_9000_0000_0000) by (nonlinear_arith)
        requires
            pn == p * n,
            0 < p <= 100,
            0 < n < 0x400_0000_0000,
    ;
    assert(-u < 4 * e < u) by (nonlinear_arith)
        requires
            -y <= e * t <= y,
            y == pn * u,
            0 < pn < 0x1_9000_0000_0000,
            t == 0x8_0000_0000_0000,
            u > 0,
    ;
    let a = (xi + u - 1) / u;
    assert(a * u >= xi && a * u <= xi + u - 1) by (nonlinear_arith)
        requires
            a == (xi + u - 1) / u,
            u > 0,
    ;
    assert(100 * a >= pn) by (nonlinear_arith)
        requires
            a * u >= xi,
            e == xi * 100 - y,
            y == pn * u,
            -u < 4 * e,
            u > 0,
    ;
    assert(100 * a <= pn + 100) by (nonlinear_arith)
        requires
            a * u <= xi + u - 1,
            e == xi * 100 - y,
            y == pn * u,
            4 * e < u,
            u > 0,
    ;
}

/// No percentil, ou abaixo dele, está pelo menos o alvo dos valores.
pub proof fn lei_percentil_alcanca(m: Multiset<u64>, p: u8)
    requires
        p > 0,
        alvo(p, m.len()) <= m.len(),
    ensures
        quantos_ate(m, percentil(m, p)) >= alvo(p, m.len()),
{
    let v = lei_percentil_existe(m, p);
    lei_percentil(m, p, v);
}

/// A faixa de um valor o contém, e a sua largura não passa de um 1024 avos dele; até 2047 é de um só.
pub proof fn lei_largura_da_faixa(v: u64)
    ensures
        piso_da_faixa(v) <= v <= topo_da_faixa(v),
        1024 * (topo_da_faixa(v) - piso_da_faixa(v)) <= v,
{
    let b = bits(v as nat);
    lemma2_to64();
    if b > 11 {
        lemma_bits_limites(v as nat);
        let w = pow2((b - 11) as nat);
        lemma_pow2_pos((b - 11) as nat);
        lemma_pow2_adds(10, (b - 11) as nat);
        assert(largura(v) == w);
        assert(1024 * w <= v);
        let r = v as int % w as int;
        assert(0 <= r < w);
    }
}

} // verus!
