//! Formatação dos resultados: tabelas no terminal e dados do relatório JSON.

use vstd::prelude::*;
use vstd::string::*;

use crate::config::{Config, GeradorPlano};
use crate::decimal::{digitos, lemma_digitos_sao_algarismos};
use crate::latencias::{maximo, percentil, registradas};
use crate::metricas::{Agregado, Conferencia, EstatReceptor, Origem};
use crate::numerais::{escrever, escrito};
use crate::reais::Real;
use crate::tabela::{contagem, Tabela};
use crate::texto::{
    a_direita, a_esquerda, caracteres, com_virgula, decimal, iguais, por_a_direita, por_a_esquerda,
    repetido, repetir, trecho, trocar_ponto,
};

verus! {

/// Dados de envio de um gerador, lidos do relatório que ele grava.
pub struct EnvioGerador {
    pub nome: String,
    pub taxa_alvo: u64,
    pub enviadas_uteis: u64,
    pub taxa_real: Real,
    pub erros_envio: u64,
    pub janela_s: Real,
}

// ---- Formatação numérica em pt-BR ----

/// Os algarismos com um ponto a cada três, a contar da direita.
pub open spec fn agrupado(d: Seq<char>) -> Seq<char>
    decreases d.len(),
{
    if d.len() <= 3 {
        d
    } else {
        agrupado(d.take(d.len() - 3)) + "."@ + d.skip(d.len() - 3)
    }
}

/// O numeral com os milhares separados por ponto.
pub open spec fn com_milhares(n: u64) -> Seq<char> {
    agrupado(digitos(n as nat))
}

/// Separa os milhares com ponto: `3000000` -> `3.000.000`.
pub fn num(n: u64) -> (r: String)
    ensures
        r@ == com_milhares(n),
{
    let cs = caracteres(decimal(n as u128).as_str());
    let ghost d = cs@;
    proof {
        lemma_digitos_sao_algarismos(n as nat);
    }
    let total: usize = cs.len();
    let mut i: usize = (total - 1) % 3 + 1;
    let mut r = trecho(&cs, 0, i);
    proof {
        assert(d.take(i as int) =~= d.subrange(0, i as int));
    }
    while i < total
        invariant
            1 <= i <= total,
            total == cs@.len(),
            d == cs@,
            (total - i) % 3 == 0,
            r@ == agrupado(d.take(i as int)),
        decreases total - i,
    {
        r.append(".");
        r.append(trecho(&cs, i, i + 3).as_str());
        proof {
            let t = d.take(i + 3);
            assert(t.take(t.len() - 3) =~= d.take(i as int));
            assert(t.skip(t.len() - 3) =~= d.subrange(i as int, i + 3));
        }
        i = i + 3;
    }
    proof {
        assert(d.take(total as int) =~= d);
    }
    r
}

/// O percentual com duas casas e vírgula decimal.
pub open spec fn em_pct(v: Real) -> Seq<char> {
    com_virgula(escrito(v, 2, false) + "%"@)
}

/// Percentual com duas casas e vírgula decimal.
pub fn pct(v: Real) -> (r: String)
    ensures
        r@ == em_pct(v),
{
    let mut s = escrever(v, 2, false);
    s.append("%");
    trocar_ponto(s.as_str())
}

/// O percentual com duas casas, vírgula decimal e sinal.
pub open spec fn em_pct_com_sinal(v: Real) -> Seq<char> {
    com_virgula(escrito(v, 2, true) + "%"@)
}

/// Percentual com duas casas, vírgula decimal e sinal também quando positivo.
pub fn pct_sinal(v: Real) -> (r: String)
    ensures
        r@ == em_pct_com_sinal(v),
{
    let mut s = escrever(v, 2, true);
    s.append("%");
    trocar_ponto(s.as_str())
}

/// O decimal com vírgula.
pub open spec fn em_decimal(v: Real, casas: nat) -> Seq<char> {
    com_virgula(escrito(v, casas, false))
}

/// Decimal com vírgula, no padrão pt-BR.
pub fn dec(v: Real, casas: usize) -> (r: String)
    requires
        casas <= 65535,
    ensures
        r@ == em_decimal(v, casas as nat),
{
    trocar_ponto(escrever(v, casas, false).as_str())
}

/// A latência em microssegundos numa unidade legível.
pub open spec fn em_latencia(us: u64) -> Seq<char> {
    let x = Real::do_inteiro(us as int);
    if us == 0 {
        "-"@
    } else if us < 1_000 {
        digitos(us as nat) + "µs"@
    } else if us < 1_000_000 {
        com_virgula(escrito(x.quociente(Real::do_inteiro(1000)), 1, false) + "ms"@)
    } else {
        com_virgula(escrito(x.quociente(Real::do_inteiro(1_000_000)), 2, false) + "s"@)
    }
}

/// Latência em microssegundos para uma unidade legível.
pub fn lat(us: u64) -> (r: String)
    ensures
        r@ == em_latencia(us),
{
    if us == 0 {
        "-".to_owned()
    } else if us < 1_000 {
        let mut s = decimal(us as u128);
        s.append("µs");
        s
    } else if us < 1_000_000 {
        let mut s = escrever(Real::de_u64(us).dividir(Real::de_u64(1000)), 1, false);
        s.append("ms");
        trocar_ponto(s.as_str())
    } else {
        let mut s = escrever(Real::de_u64(us).dividir(Real::de_u64(1_000_000)), 2, false);
        s.append("s");
        trocar_ponto(s.as_str())
    }
}

/// O número em milhares, a partir de mil.
pub open spec fn em_milhares(v: Real) -> Seq<char> {
    if Real::do_inteiro(1000).menor_ou_igual(v) {
        com_virgula(escrito(v.quociente(Real::do_inteiro(1000)), 1, false) + "k"@)
    } else {
        escrito(v, 0, false)
    }
}

/// Número com uma casa em milhares, a partir de mil.
pub fn milhares_f(v: Real) -> (r: String)
    ensures
        r@ == em_milhares(v),
{
    let mil = Real::de_u64(1000);
    if mil.ate(v) {
        let mut s = escrever(v.dividir(mil), 1, false);
        s.append("k");
        trocar_ponto(s.as_str())
    } else {
        escrever(v, 0, false)
    }
}

// ---- Veredito ----

pub enum Veredito {
    Balanceado,
    DesvioLeve,
    Desbalanceado,
}

impl Veredito {
    /// Até 1% é balanceado, até 5% é desvio leve.
    pub open spec fn do_desvio(desvio: Real) -> Veredito {
        if desvio.menor_ou_igual(Real::do_inteiro(1)) {
            Veredito::Balanceado
        } else if desvio.menor_ou_igual(Real::do_inteiro(5)) {
            Veredito::DesvioLeve
        } else {
            Veredito::Desbalanceado
        }
    }

    pub fn avaliar(desvio_maximo: Real) -> (r: Veredito)
        ensures
            r == Veredito::do_desvio(desvio_maximo),
    {
        if desvio_maximo.ate(Real::de_u64(1)) {
            Veredito::Balanceado
        } else if desvio_maximo.ate(Real::de_u64(5)) {
            Veredito::DesvioLeve
        } else {
            Veredito::Desbalanceado
        }
    }

    pub open spec fn escrito(self) -> Seq<char> {
        match self {
            Veredito::Balanceado => "BALANCEADO"@,
            Veredito::DesvioLeve => "DESVIO LEVE"@,
            Veredito::Desbalanceado => "DESBALANCEADO"@,
        }
    }

    pub fn texto(&self) -> (r: &'static str)
        ensures
            r@ == self.escrito(),
    {
        match self {
            Veredito::Balanceado => "BALANCEADO",
            Veredito::DesvioLeve => "DESVIO LEVE",
            Veredito::Desbalanceado => "DESBALANCEADO",
        }
    }
}

// ---- Resumo ----

pub struct Resumo {
    pub enviadas: u64,
    pub recebidas: u64,
    pub perdidas: i64,
    pub perda_pct: Real,
    pub vazao: Real,
    pub mb_s: Real,
    pub janela_s: Real,
    pub desvio_maximo: Real,
}

/// `a - b` em 64 bits com sinal, circular.
pub open spec fn diferenca(a: u64, b: u64) -> i64 {
    if a - b > i64::MAX {
        (a - b - 0x1_0000_0000_0000_0000) as i64
    } else if a - b < i64::MIN {
        (a - b + 0x1_0000_0000_0000_0000) as i64
    } else {
        (a - b) as i64
    }
}

/// `a - b` em 64 bits com sinal, circular.
pub fn subtrair(a: u64, b: u64) -> (r: i64)
    ensures
        r == diferenca(a, b),
{
    let d: i128 = a as i128 - b as i128;
    if d > i64::MAX as i128 {
        (d - 0x1_0000_0000_0000_0000) as i64
    } else if d < i64::MIN as i128 {
        (d + 0x1_0000_0000_0000_0000) as i64
    } else {
        d as i64
    }
}

/// `parte` em porcentagem do `todo`, ou zero se o todo é zero.
pub open spec fn porcentagem(parte: int, todo: u64) -> Real {
    if todo > 0 {
        Real::do_inteiro(parte).quociente(Real::do_inteiro(todo as int)).produto(
            Real::do_inteiro(100),
        )
    } else {
        Real::do_inteiro(0)
    }
}

/// `parte` em porcentagem do `todo`, ou zero se o todo é zero.
pub fn em_porcentagem(parte: i128, todo: u64) -> (r: Real)
    ensures
        r == porcentagem(parte as int, todo),
{
    if todo > 0 {
        Real::de_i128(parte).dividir(Real::de_u64(todo)).multiplicar(Real::de_u64(100))
    } else {
        Real::de_u64(0)
    }
}

/// A soma do que os geradores enviaram fora do aquecimento.
pub open spec fn soma_enviadas(es: Seq<EnvioGerador>) -> int
    decreases es.len(),
{
    if es.len() == 0 {
        0
    } else {
        soma_enviadas(es.drop_last()) + es.last().enviadas_uteis
    }
}

/// A maior das janelas de envio.
pub open spec fn maior_janela(es: Seq<EnvioGerador>) -> Real
    decreases es.len(),
{
    if es.len() == 0 {
        Real::do_inteiro(0)
    } else {
        maior_janela(es.drop_last()).maior_entre(es.last().janela_s)
    }
}

/// A fatia de cada receptor num balanceamento perfeito, em porcentagem.
pub open spec fn fatia_ideal(quantidade: usize) -> Real {
    Real::do_inteiro(100).quociente(
        Real::do_inteiro(
            if quantidade < 1 {
                1
            } else {
                quantidade as int
            },
        ),
    )
}

/// A fatia de cada receptor num balanceamento perfeito, em porcentagem.
pub fn calcular_ideal(quantidade: usize) -> (r: Real)
    ensures
        r == fatia_ideal(quantidade),
{
    let n: u64 = if quantidade < 1 {
        1
    } else {
        quantidade as u64
    };
    Real::de_u64(100).dividir(Real::de_u64(n))
}

/// O maior desvio da fatia de um receptor em relação à ideal.
pub open spec fn maior_desvio(rs: Seq<EstatReceptor>, recebidas: u64, ideal: Real) -> Real
    decreases rs.len(),
{
    if rs.len() == 0 {
        Real::do_inteiro(0)
    } else {
        maior_desvio(rs.drop_last(), recebidas, ideal).maior_entre(
            porcentagem(rs.last().recebidas as int, recebidas).diferenca(ideal).absoluto(),
        )
    }
}

/// O resumo de um teste.
pub open spec fn resumo_de(
    cfg: Config,
    es: Seq<EnvioGerador>,
    ag: Agregado,
    tamanho_medio: usize,
) -> Resumo {
    let enviadas = (soma_enviadas(es) % 0x1_0000_0000_0000_0000) as u64;
    let recebidas = ag.total_recebidas;
    let perdidas = diferenca(enviadas, recebidas);
    let janela_s = maior_janela(es);
    let vazao = if Real::do_inteiro(0).menor(janela_s) {
        Real::do_inteiro(recebidas as int).quociente(janela_s)
    } else {
        Real::do_inteiro(0)
    };
    Resumo {
        enviadas,
        recebidas,
        perdidas,
        perda_pct: porcentagem(perdidas as int, enviadas),
        vazao,
        mb_s: vazao.produto(Real::do_inteiro(tamanho_medio as int)).quociente(
            Real::do_inteiro(1_048_576),
        ),
        janela_s,
        desvio_maximo: maior_desvio(
            ag.receptores@,
            recebidas,
            fatia_ideal(cfg.receptores.quantidade),
        ),
    }
}

fn somar_enviadas(es: &Vec<EnvioGerador>) -> (r: u64)
    ensures
        r == soma_enviadas(es@) % 0x1_0000_0000_0000_0000,
{
    let mut r: u64 = 0;
    let mut i: usize = 0;
    while i < es.len()
        invariant
            i <= es@.len(),
            r == soma_enviadas(es@.take(i as int)) % 0x1_0000_0000_0000_0000,
        decreases es@.len() - i,
    {
        proof {
            assert(es@.take(i + 1).drop_last() =~= es@.take(i as int));
        }
        r = r.wrapping_add(es[i].enviadas_uteis);
        i = i + 1;
    }
    proof {
        assert(es@.take(es@.len() as int) =~= es@);
    }
    r
}

fn achar_maior_janela(es: &Vec<EnvioGerador>) -> (r: Real)
    ensures
        r == maior_janela(es@),
{
    let mut r = Real::de_u64(0);
    let mut i: usize = 0;
    while i < es.len()
        invariant
            i <= es@.len(),
            r == maior_janela(es@.take(i as int)),
        decreases es@.len() - i,
    {
        proof {
            assert(es@.take(i + 1).drop_last() =~= es@.take(i as int));
        }
        r = r.maior(es[i].janela_s);
        i = i + 1;
    }
    proof {
        assert(es@.take(es@.len() as int) =~= es@);
    }
    r
}

fn achar_maior_desvio(rs: &Vec<EstatReceptor>, recebidas: u64, ideal: Real) -> (r: Real)
    ensures
        r == maior_desvio(rs@, recebidas, ideal),
{
    let mut r = Real::de_u64(0);
    let mut i: usize = 0;
    while i < rs.len()
        invariant
            i <= rs@.len(),
            r == maior_desvio(rs@.take(i as int), recebidas, ideal),
        decreases rs@.len() - i,
    {
        proof {
            assert(rs@.take(i + 1).drop_last() =~= rs@.take(i as int));
        }
        let fatia = em_porcentagem(rs[i].recebidas as i128, recebidas);
        r = r.maior(fatia.subtrair(ideal).sem_sinal());
        i = i + 1;
    }
    proof {
        assert(rs@.take(rs@.len() as int) =~= rs@);
    }
    r
}

/// Resume um teste: o que foi enviado, recebido e perdido, a vazão e o desvio do balanceamento.
pub fn resumir(cfg: &Config, envios: &Vec<EnvioGerador>, ag: &Agregado, tamanho_medio: usize) -> (r:
    Resumo)
    ensures
        r == resumo_de(*cfg, envios@, *ag, tamanho_medio),
{
    let enviadas = somar_enviadas(envios);
    let recebidas = ag.total_recebidas;
    let perdidas = subtrair(enviadas, recebidas);
    let perda_pct = em_porcentagem(perdidas as i128, enviadas);
    let janela_s = achar_maior_janela(envios);
    let vazao = if Real::de_u64(0).abaixo(janela_s) {
        Real::de_u64(recebidas).dividir(janela_s)
    } else {
        Real::de_u64(0)
    };
    let ideal = calcular_ideal(cfg.receptores.quantidade);
    let desvio_maximo = achar_maior_desvio(&ag.receptores, recebidas, ideal);
    Resumo {
        enviadas,
        recebidas,
        perdidas,
        perda_pct,
        vazao,
        mb_s: vazao.multiplicar(Real::de_u64(tamanho_medio as u64)).dividir(
            Real::de_u64(1_048_576),
        ),
        janela_s,
        desvio_maximo,
    }
}

// ---- Tabelas ----

/// A perda, ou as duplicadas quando se recebeu mais do que se enviou.
pub open spec fn perda_escrita(r: Resumo) -> Seq<char> {
    if r.perdidas >= 0 {
        com_milhares(r.perdidas as u64) + " ("@ + em_pct(r.perda_pct) + ")"@
    } else {
        com_milhares((-r.perdidas) as u64) + " duplicadas ("@ + em_pct(r.perda_pct.oposto())
            + ")"@
    }
}

pub open spec fn secao_resumo(r: Resumo) -> Seq<char> {
    "\n=== RESUMO ===\nduração útil: "@ + em_decimal(r.janela_s, 1) + "s   enviadas: "@
        + com_milhares(r.enviadas) + "   recebidas: "@ + com_milhares(r.recebidas) + "\nperda: "@
        + perda_escrita(r) + "   vazão: "@ + em_milhares(r.vazao) + " msg/s | "@ + em_decimal(
        r.mb_s,
        1,
    ) + " MB/s\n"@
}

fn modulo(n: i64) -> (r: u64)
    ensures
        r == if n >= 0 {
            n as int
        } else {
            -n
        },
{
    if n >= 0 {
        n as u64
    } else {
        (-(n as i128)) as u64
    }
}

fn escrever_perda(r: &Resumo) -> (t: String)
    ensures
        t@ == perda_escrita(*r),
{
    let mut t = num(modulo(r.perdidas));
    if r.perdidas >= 0 {
        t.append(" (");
        t.append(pct(r.perda_pct).as_str());
    } else {
        t.append(" duplicadas (");
        t.append(pct(r.perda_pct.negar()).as_str());
    }
    t.append(")");
    t
}

fn escrever_resumo(r: &Resumo) -> (t: String)
    ensures
        t@ == secao_resumo(*r),
{
    let mut t = "\n=== RESUMO ===\nduração útil: ".to_owned();
    t.append(dec(r.janela_s, 1).as_str());
    t.append("s   enviadas: ");
    t.append(num(r.enviadas).as_str());
    t.append("   recebidas: ");
    t.append(num(r.recebidas).as_str());
    t.append("\nperda: ");
    t.append(escrever_perda(r).as_str());
    t.append("   vazão: ");
    t.append(milhares_f(r.vazao).as_str());
    t.append(" msg/s | ");
    t.append(dec(r.mb_s, 1).as_str());
    t.append(" MB/s\n");
    t
}

/// Uma linha da tabela de receptores.
pub open spec fn linha_receptor(
    nome: Seq<char>,
    mensagens: Seq<char>,
    fatia: Seq<char>,
    desvio: Seq<char>,
    p50: Seq<char>,
    p99: Seq<char>,
    maior: Seq<char>,
) -> Seq<char> {
    a_esquerda(nome, 10) + " "@ + a_direita(mensagens, 12) + " "@ + a_direita(fatia, 9) + " "@
        + a_direita(desvio, 9) + " "@ + a_direita(p50, 9) + " "@ + a_direita(p99, 9) + " "@
        + a_direita(maior, 9) + "\n"@
}

fn escrever_linha_receptor(
    nome: &str,
    mensagens: &str,
    fatia: &str,
    desvio: &str,
    p50: &str,
    p99: &str,
    maior: &str,
) -> (t: String)
    ensures
        t@ == linha_receptor(nome@, mensagens@, fatia@, desvio@, p50@, p99@, maior@),
{
    let mut t = String::new();
    por_a_esquerda(&mut t, nome, 10);
    proof {
        assert(t@ =~= a_esquerda(nome@, 10));
    }
    t.append(" ");
    por_a_direita(&mut t, mensagens, 12);
    t.append(" ");
    por_a_direita(&mut t, fatia, 9);
    t.append(" ");
    por_a_direita(&mut t, desvio, 9);
    t.append(" ");
    por_a_direita(&mut t, p50, 9);
    t.append(" ");
    por_a_direita(&mut t, p99, 9);
    t.append(" ");
    por_a_direita(&mut t, maior, 9);
    t.append("\n");
    t
}

/// A linha da tabela para o receptor.
pub open spec fn linha_do_receptor(r: EstatReceptor, recebidas: u64, ideal: Real) -> Seq<char> {
    let fatia = porcentagem(r.recebidas as int, recebidas);
    let m = registradas(r.latencia);
    linha_receptor(
        r.nome@,
        com_milhares(r.recebidas),
        em_pct(fatia),
        em_pct_com_sinal(fatia.diferenca(ideal)),
        em_latencia(percentil(m, 50) as u64),
        em_latencia(percentil(m, 99) as u64),
        em_latencia(maximo(m) as u64),
    )
}

fn escrever_receptor(r: &EstatReceptor, recebidas: u64, ideal: Real) -> (t: String)
    ensures
        t@ == linha_do_receptor(*r, recebidas, ideal),
{
    let fatia = em_porcentagem(r.recebidas as i128, recebidas);
    escrever_linha_receptor(
        r.nome.as_str(),
        num(r.recebidas).as_str(),
        pct(fatia).as_str(),
        pct_sinal(fatia.subtrair(ideal)).as_str(),
        lat(r.percentil_us(50)).as_str(),
        lat(r.percentil_us(99)).as_str(),
        lat(r.maximo_us()).as_str(),
    )
}

/// As linhas da tabela de receptores.
pub open spec fn linhas_dos_receptores(
    rs: Seq<EstatReceptor>,
    recebidas: u64,
    ideal: Real,
) -> Seq<char>
    decreases rs.len(),
{
    if rs.len() == 0 {
        Seq::empty()
    } else {
        linhas_dos_receptores(rs.drop_last(), recebidas, ideal) + linha_do_receptor(
            rs.last(),
            recebidas,
            ideal,
        )
    }
}

pub open spec fn secao_receptores(cfg: Config, ag: Agregado, r: Resumo) -> Seq<char> {
    "\n=== POR RECEPTOR (balanceamento) ===\n"@ + linha_receptor(
        "receptor"@,
        "mensagens"@,
        "fatia"@,
        "desvio"@,
        "p50"@,
        "p99"@,
        "máx"@,
    ) + linhas_dos_receptores(
        ag.receptores@,
        r.recebidas,
        fatia_ideal(cfg.receptores.quantidade),
    ) + repetido('-', 72) + "\ndesvio máximo: "@ + em_pct(r.desvio_maximo) + "   ->  "@
        + Veredito::do_desvio(r.desvio_maximo).escrito() + "\n"@
}

fn escrever_linhas_receptores(rs: &Vec<EstatReceptor>, recebidas: u64, ideal: Real) -> (t: String)
    ensures
        t@ == linhas_dos_receptores(rs@, recebidas, ideal),
{
    let mut t = String::new();
    let mut i: usize = 0;
    proof {
        assert(t@ =~= Seq::<char>::empty());
    }
    while i < rs.len()
        invariant
            i <= rs@.len(),
            t@ == linhas_dos_receptores(rs@.take(i as int), recebidas, ideal),
        decreases rs@.len() - i,
    {
        proof {
            assert(rs@.take(i + 1).drop_last() =~= rs@.take(i as int));
        }
        t.append(escrever_receptor(&rs[i], recebidas, ideal).as_str());
        i = i + 1;
    }
    proof {
        assert(rs@.take(rs@.len() as int) =~= rs@);
    }
    t
}

fn escrever_receptores(cfg: &Config, ag: &Agregado, r: &Resumo) -> (t: String)
    ensures
        t@ == secao_receptores(*cfg, *ag, *r),
{
    let mut t = "\n=== POR RECEPTOR (balanceamento) ===\n".to_owned();
    let titulos = escrever_linha_receptor(
        "receptor",
        "mensagens",
        "fatia",
        "desvio",
        "p50",
        "p99",
        "máx",
    );
    t.append(titulos.as_str());
    let ideal = calcular_ideal(cfg.receptores.quantidade);
    t.append(escrever_linhas_receptores(&ag.receptores, r.recebidas, ideal).as_str());
    t.append(repetir('-', 72).as_str());
    t.append("\ndesvio máximo: ");
    t.append(pct(r.desvio_maximo).as_str());
    t.append("   ->  ");
    t.append(Veredito::avaliar(r.desvio_maximo).texto());
    t.append("\n");
    t
}

/// Uma linha da tabela de geradores.
pub open spec fn linha_gerador(
    nome: Seq<char>,
    proto: Seq<char>,
    fatia: Seq<char>,
    enviadas: Seq<char>,
    recebidas: Seq<char>,
    perdidas: Seq<char>,
) -> Seq<char> {
    a_esquerda(nome, 10) + " "@ + a_direita(proto, 6) + " "@ + a_direita(fatia, 7) + " "@
        + a_direita(enviadas, 12) + " "@ + a_direita(recebidas, 12) + " "@ + a_direita(
        perdidas,
        20,
    ) + "\n"@
}

fn escrever_linha_gerador(
    nome: &str,
    proto: &str,
    fatia: &str,
    enviadas: &str,
    recebidas: &str,
    perdidas: &str,
) -> (t: String)
    ensures
        t@ == linha_gerador(nome@, proto@, fatia@, enviadas@, recebidas@, perdidas@),
{
    let mut t = String::new();
    por_a_esquerda(&mut t, nome, 10);
    proof {
        assert(t@ =~= a_esquerda(nome@, 10));
    }
    t.append(" ");
    por_a_direita(&mut t, proto, 6);
    t.append(" ");
    por_a_direita(&mut t, fatia, 7);
    t.append(" ");
    por_a_direita(&mut t, enviadas, 12);
    t.append(" ");
    por_a_direita(&mut t, recebidas, 12);
    t.append(" ");
    por_a_direita(&mut t, perdidas, 20);
    t.append("\n");
    t
}

/// O último envio com esse nome.
pub open spec fn envio_de(es: Seq<EnvioGerador>, nome: Seq<char>) -> Option<EnvioGerador>
    decreases es.len(),
{
    if es.len() == 0 {
        None
    } else if es.last().nome@ == nome {
        Some(es.last())
    } else {
        envio_de(es.drop_last(), nome)
    }
}

fn achar_envio<'a>(es: &'a Vec<EnvioGerador>, nome: &str) -> (r: Option<&'a EnvioGerador>)
    ensures
        match r {
            Some(e) => envio_de(es@, nome@) == Some(*e),
            None => envio_de(es@, nome@) is None,
        },
{
    let mut n: usize = es.len();
    proof {
        assert(es@.take(n as int) =~= es@);
    }
    while n > 0
        invariant
            n <= es@.len(),
            envio_de(es@.take(n as int), nome@) == envio_de(es@, nome@),
        decreases n,
    {
        proof {
            assert(es@.take(n as int).drop_last() =~= es@.take(n - 1));
        }
        n = n - 1;
        if iguais(es[n].nome.as_str(), nome) {
            return Some(&es[n]);
        }
    }
    None
}

/// A linha da tabela para o gerador do plano.
pub open spec fn linha_do_gerador(
    p: GeradorPlano,
    es: Seq<EnvioGerador>,
    recebidas_por_gerador: Seq<(Seq<char>, u64)>,
) -> Seq<char> {
    match envio_de(es, p.nome@) {
        None => linha_gerador(
            p.nome@,
            p.proto.escrito(),
            "-"@,
            "sem relatório"@,
            "-"@,
            "-"@,
        ),
        Some(e) => {
            let recebidas = contagem(recebidas_por_gerador, p.nome@);
            let perdidas = diferenca(e.enviadas_uteis, recebidas);
            let fatia = if p.taxa_explicita {
                "fixa"@
            } else {
                em_pct(p.fatia.produto(Real::do_inteiro(100)))
            };
            linha_gerador(
                p.nome@,
                p.proto.escrito(),
                fatia,
                com_milhares(e.enviadas_uteis),
                com_milhares(recebidas),
                com_milhares(
                    if perdidas >= 0 {
                        perdidas as u64
                    } else {
                        (-perdidas) as u64
                    },
                ) + " ("@ + em_pct(porcentagem(perdidas as int, e.enviadas_uteis)) + ")"@,
            )
        },
    }
}

fn escrever_gerador(p: &GeradorPlano, es: &Vec<EnvioGerador>, recebidas: &Tabela<u64>) -> (t: String)
    ensures
        t@ == linha_do_gerador(*p, es@, recebidas@),
{
    match achar_envio(es, p.nome.as_str()) {
        None => escrever_linha_gerador(
            p.nome.as_str(),
            p.proto.texto(),
            "-",
            "sem relatório",
            "-",
            "-",
        ),
        Some(e) => {
            let n = recebidas.ler(p.nome.as_str());
            let perdidas = subtrair(e.enviadas_uteis, n);
            let fatia = if p.taxa_explicita {
                "fixa".to_owned()
            } else {
                pct(p.fatia.multiplicar(Real::de_u64(100)))
            };
            let mut perda = num(modulo(perdidas));
            perda.append(" (");
            perda.append(pct(em_porcentagem(perdidas as i128, e.enviadas_uteis)).as_str());
            perda.append(")");
            escrever_linha_gerador(
                p.nome.as_str(),
                p.proto.texto(),
                fatia.as_str(),
                num(e.enviadas_uteis).as_str(),
                num(n).as_str(),
                perda.as_str(),
            )
        },
    }
}

/// As linhas da tabela de geradores.
pub open spec fn linhas_dos_geradores(
    ps: Seq<GeradorPlano>,
    es: Seq<EnvioGerador>,
    recebidas: Seq<(Seq<char>, u64)>,
) -> Seq<char>
    decreases ps.len(),
{
    if ps.len() == 0 {
        Seq::empty()
    } else {
        linhas_dos_geradores(ps.drop_last(), es, recebidas) + linha_do_gerador(
            ps.last(),
            es,
            recebidas,
        )
    }
}

pub open spec fn secao_geradores(
    ps: Seq<GeradorPlano>,
    es: Seq<EnvioGerador>,
    recebidas: Seq<(Seq<char>, u64)>,
) -> Seq<char> {
    "\n=== POR GERADOR ===\n"@ + linha_gerador(
        "gerador"@,
        "proto"@,
        "fatia"@,
        "enviadas"@,
        "recebidas"@,
        "perdidas"@,
    ) + linhas_dos_geradores(ps, es, recebidas)
}

fn escrever_geradores(ps: &Vec<GeradorPlano>, es: &Vec<EnvioGerador>, recebidas: &Tabela<u64>) -> (t:
    String)
    ensures
        t@ == secao_geradores(ps@, es@, recebidas@),
{
    let mut linhas = String::new();
    let mut i: usize = 0;
    proof {
        assert(linhas@ =~= Seq::<char>::empty());
    }
    while i < ps.len()
        invariant
            i <= ps@.len(),
            linhas@ == linhas_dos_geradores(ps@.take(i as int), es@, recebidas@),
        decreases ps@.len() - i,
    {
        proof {
            assert(ps@.take(i + 1).drop_last() =~= ps@.take(i as int));
        }
        linhas.append(escrever_gerador(&ps[i], es, recebidas).as_str());
        i = i + 1;
    }
    proof {
        assert(ps@.take(ps@.len() as int) =~= ps@);
    }
    let mut t = "\n=== POR GERADOR ===\n".to_owned();
    let titulos = escrever_linha_gerador(
        "gerador",
        "proto",
        "fatia",
        "enviadas",
        "recebidas",
        "perdidas",
    );
    t.append(titulos.as_str());
    t.append(linhas.as_str());
    t
}

/// Uma linha da tabela de origens.
pub open spec fn linha_origem(
    origem: Seq<char>,
    relay: Seq<char>,
    mensagens: Seq<char>,
    fatia: Seq<char>,
) -> Seq<char> {
    a_esquerda(origem, 20) + " "@ + a_esquerda(relay, 20) + " "@ + a_direita(mensagens, 12) + " "@
        + a_direita(fatia, 9) + "\n"@
}

fn escrever_linha_origem(origem: &str, relay: &str, mensagens: &str, fatia: &str) -> (t: String)
    ensures
        t@ == linha_origem(origem@, relay@, mensagens@, fatia@),
{
    let mut t = String::new();
    por_a_esquerda(&mut t, origem, 20);
    proof {
        assert(t@ =~= a_esquerda(origem@, 20));
    }
    t.append(" ");
    por_a_esquerda(&mut t, relay, 20);
    t.append(" ");
    por_a_direita(&mut t, mensagens, 12);
    t.append(" ");
    por_a_direita(&mut t, fatia, 9);
    t.append("\n");
    t
}

/// As linhas da tabela de origens.
pub open spec fn linhas_das_origens(os: Seq<Origem>, recebidas: u64) -> Seq<char>
    decreases os.len(),
{
    if os.len() == 0 {
        Seq::empty()
    } else {
        linhas_das_origens(os.drop_last(), recebidas) + linha_origem(
            os.last().origem@,
            os.last().relay@,
            com_milhares(os.last().mensagens),
            em_pct(porcentagem(os.last().mensagens as int, recebidas)),
        )
    }
}

/// A tabela de origens; nada se não há nenhuma.
pub open spec fn secao_origens(os: Seq<Origem>, recebidas: u64) -> Seq<char> {
    if os.len() == 0 {
        Seq::empty()
    } else {
        "\n=== ORIGEM x RELAY (cadeia vista pelo receptor) ===\n"@ + linha_origem(
            "origem (emissor)"@,
            "relay (encaminhou)"@,
            "mensagens"@,
            "fatia"@,
        ) + linhas_das_origens(os, recebidas)
    }
}

fn escrever_linhas_origens(os: &Vec<Origem>, recebidas: u64) -> (t: String)
    ensures
        t@ == linhas_das_origens(os@, recebidas),
{
    let mut t = String::new();
    let mut i: usize = 0;
    proof {
        assert(t@ =~= Seq::<char>::empty());
    }
    while i < os.len()
        invariant
            i <= os@.len(),
            t@ == linhas_das_origens(os@.take(i as int), recebidas),
        decreases os@.len() - i,
    {
        proof {
            assert(os@.take(i + 1).drop_last() =~= os@.take(i as int));
        }
        let o = &os[i];
        let linha = escrever_linha_origem(
            o.origem.as_str(),
            o.relay.as_str(),
            num(o.mensagens).as_str(),
            pct(em_porcentagem(o.mensagens as i128, recebidas)).as_str(),
        );
        t.append(linha.as_str());
        i = i + 1;
    }
    proof {
        assert(os@.take(os@.len() as int) =~= os@);
    }
    t
}

fn escrever_origens(os: &Vec<Origem>, recebidas: u64) -> (t: String)
    ensures
        t@ == secao_origens(os@, recebidas),
{
    if os.len() == 0 {
        let t = String::new();
        proof {
            assert(t@ =~= Seq::<char>::empty());
        }
        return t;
    }
    let mut t = "\n=== ORIGEM x RELAY (cadeia vista pelo receptor) ===\n".to_owned();
    let titulos = escrever_linha_origem(
        "origem (emissor)",
        "relay (encaminhou)",
        "mensagens",
        "fatia",
    );
    t.append(titulos.as_str());
    t.append(escrever_linhas_origens(os, recebidas).as_str());
    t
}

// ---- Avisos ----

/// Se o gerador ficou abaixo de 95% da sua taxa.
pub open spec fn abaixo_da_taxa(e: EnvioGerador) -> bool {
    e.taxa_alvo > 0 && e.taxa_real.menor(
        Real::do_inteiro(e.taxa_alvo as int).produto(
            Real::do_inteiro(95).quociente(Real::do_inteiro(100)),
        ),
    )
}

pub open spec fn aviso_de_taxa(e: EnvioGerador) -> Seq<char> {
    "gerador "@ + e.nome@ + " emitiu "@ + em_milhares(e.taxa_real) + " msg/s, abaixo dos "@
        + em_milhares(Real::do_inteiro(e.taxa_alvo as int))
        + " configurados — o gargalo pode ser o próprio gerador"@
}

pub open spec fn aviso_de_erros(e: EnvioGerador) -> Seq<char> {
    "gerador "@ + e.nome@ + " acumulou "@ + com_milhares(e.erros_envio) + " erros de envio"@
}

/// As linhas dos avisos de um gerador.
pub open spec fn avisos_do_envio(e: EnvioGerador) -> Seq<char> {
    let taxa = if abaixo_da_taxa(e) {
        "  ! "@ + aviso_de_taxa(e) + "\n"@
    } else {
        Seq::empty()
    };
    let erros = if e.erros_envio > 0 {
        "  ! "@ + aviso_de_erros(e) + "\n"@
    } else {
        Seq::empty()
    };
    taxa + erros
}

/// As linhas dos avisos dos geradores, na ordem.
pub open spec fn avisos_dos_envios(es: Seq<EnvioGerador>) -> Seq<char>
    decreases es.len(),
{
    if es.len() == 0 {
        Seq::empty()
    } else {
        avisos_dos_envios(es.drop_last()) + avisos_do_envio(es.last())
    }
}

/// As linhas de todos os avisos.
pub open spec fn linhas_dos_avisos(es: Seq<EnvioGerador>, ag: Agregado) -> Seq<char> {
    let relogio = if ag.anomalias_relogio > 0 {
        "  ! "@ + com_milhares(ag.anomalias_relogio)
            + " mensagens com latência negativa (relógio inconsistente)\n"@
    } else {
        Seq::empty()
    };
    let invalidas = if ag.linhas_invalidas > 0 {
        "  ! "@ + com_milhares(ag.linhas_invalidas)
            + " linhas ilegíveis nos logs dos receptores\n"@
    } else {
        Seq::empty()
    };
    avisos_dos_envios(es) + relogio + invalidas
}

/// A seção dos avisos; nada se não há nenhum.
pub open spec fn secao_avisos(es: Seq<EnvioGerador>, ag: Agregado) -> Seq<char> {
    let linhas = linhas_dos_avisos(es, ag);
    if linhas.len() == 0 {
        Seq::empty()
    } else {
        "\n=== AVISOS ===\n"@ + linhas
    }
}

fn esta_abaixo_da_taxa(e: &EnvioGerador) -> (r: bool)
    ensures
        r == abaixo_da_taxa(*e),
{
    e.taxa_alvo > 0 && e.taxa_real.abaixo(
        Real::de_u64(e.taxa_alvo).multiplicar(Real::de_u64(95).dividir(Real::de_u64(100))),
    )
}

fn avisar_envio(e: &EnvioGerador) -> (t: String)
    ensures
        t@ == avisos_do_envio(*e),
{
    let mut t = String::new();
    if esta_abaixo_da_taxa(e) {
        let mut m = "gerador ".to_owned();
        m.append(e.nome.as_str());
        m.append(" emitiu ");
        m.append(milhares_f(e.taxa_real).as_str());
        m.append(" msg/s, abaixo dos ");
        m.append(milhares_f(Real::de_u64(e.taxa_alvo)).as_str());
        m.append(" configurados — o gargalo pode ser o próprio gerador");
        t.append("  ! ");
        t.append(m.as_str());
        t.append("\n");
        proof {
            assert(t@ =~= "  ! "@ + aviso_de_taxa(*e) + "\n"@);
        }
    } else {
        proof {
            assert(t@ =~= Seq::<char>::empty());
        }
    }
    let mut u = String::new();
    if e.erros_envio > 0 {
        let mut m = "gerador ".to_owned();
        m.append(e.nome.as_str());
        m.append(" acumulou ");
        m.append(num(e.erros_envio).as_str());
        m.append(" erros de envio");
        u.append("  ! ");
        u.append(m.as_str());
        u.append("\n");
        proof {
            assert(u@ =~= "  ! "@ + aviso_de_erros(*e) + "\n"@);
        }
    } else {
        proof {
            assert(u@ =~= Seq::<char>::empty());
        }
    }
    t.append(u.as_str());
    t
}

fn avisar_envios(es: &Vec<EnvioGerador>) -> (t: String)
    ensures
        t@ == avisos_dos_envios(es@),
{
    let mut t = String::new();
    let mut i: usize = 0;
    proof {
        assert(t@ =~= Seq::<char>::empty());
    }
    while i < es.len()
        invariant
            i <= es@.len(),
            t@ == avisos_dos_envios(es@.take(i as int)),
        decreases es@.len() - i,
    {
        proof {
            assert(es@.take(i + 1).drop_last() =~= es@.take(i as int));
        }
        t.append(avisar_envio(&es[i]).as_str());
        i = i + 1;
    }
    proof {
        assert(es@.take(es@.len() as int) =~= es@);
    }
    t
}

/// Um aviso que começa por uma quantidade; nada se ela é zero.
fn avisar_quantidade(n: u64, resto: &str) -> (t: String)
    ensures
        t@ == if n > 0 {
            "  ! "@ + com_milhares(n) + resto@
        } else {
            Seq::empty()
        },
{
    if n > 0 {
        let mut t = "  ! ".to_owned();
        t.append(num(n).as_str());
        t.append(resto);
        t
    } else {
        let t = String::new();
        proof {
            assert(t@ =~= Seq::<char>::empty());
        }
        t
    }
}

fn avisar(es: &Vec<EnvioGerador>, ag: &Agregado) -> (t: String)
    ensures
        t@ == secao_avisos(es@, *ag),
{
    let mut linhas = avisar_envios(es);
    let relogio = avisar_quantidade(
        ag.anomalias_relogio,
        " mensagens com latência negativa (relógio inconsistente)\n",
    );
    linhas.append(relogio.as_str());
    let invalidas = avisar_quantidade(
        ag.linhas_invalidas,
        " linhas ilegíveis nos logs dos receptores\n",
    );
    linhas.append(invalidas.as_str());
    if linhas.as_str().unicode_len() == 0 {
        let t = String::new();
        proof {
            assert(t@ =~= Seq::<char>::empty());
        }
        return t;
    }
    let mut t = "\n=== AVISOS ===\n".to_owned();
    t.append(linhas.as_str());
    t
}

// ---- Conferência ----

/// A seção da conferência; nada se o relay não deixou contadores.
pub open spec fn secao_conferencia(c: Conferencia) -> Seq<char> {
    let descarte = if c.descartadas_fila > 0 {
        "  ! o relay descartou "@ + com_milhares(c.descartadas_fila)
            + " mensagens por fila cheia\n"@
    } else {
        Seq::empty()
    };
    if c.disponivel {
        "\n=== CONFERÊNCIA (impstats do relay, inclui o aquecimento) ===\nrecebidas pelo relay: "@
            + com_milhares(c.recebidas_relay) + "   encaminhadas: "@ + com_milhares(c.encaminhadas)
            + "   na fila ao final: "@ + com_milhares(c.na_fila) + "\n"@ + descarte
    } else {
        Seq::empty()
    }
}

fn escrever_conferencia(c: &Conferencia) -> (t: String)
    ensures
        t@ == secao_conferencia(*c),
{
    let mut descarte = String::new();
    if c.descartadas_fila > 0 {
        descarte.append("  ! o relay descartou ");
        descarte.append(num(c.descartadas_fila).as_str());
        descarte.append(" mensagens por fila cheia\n");
        proof {
            assert(descarte@ =~= "  ! o relay descartou "@ + com_milhares(c.descartadas_fila)
                + " mensagens por fila cheia\n"@);
        }
    } else {
        proof {
            assert(descarte@ =~= Seq::<char>::empty());
        }
    }
    if !c.disponivel {
        let t = String::new();
        proof {
            assert(t@ =~= Seq::<char>::empty());
        }
        return t;
    }
    let mut t =
        "\n=== CONFERÊNCIA (impstats do relay, inclui o aquecimento) ===\nrecebidas pelo relay: ".to_owned();
    t.append(num(c.recebidas_relay).as_str());
    t.append("   encaminhadas: ");
    t.append(num(c.encaminhadas).as_str());
    t.append("   na fila ao final: ");
    t.append(num(c.na_fila).as_str());
    t.append("\n");
    t.append(descarte.as_str());
    t
}

/// O texto das tabelas de um teste.
pub open spec fn tabelas(
    cfg: Config,
    plano: Seq<GeradorPlano>,
    envios: Seq<EnvioGerador>,
    ag: Agregado,
    conf: Conferencia,
    resumo: Resumo,
) -> Seq<char> {
    secao_resumo(resumo) + secao_receptores(cfg, ag, resumo) + secao_geradores(
        plano,
        envios,
        ag.recebidas_por_gerador@,
    ) + secao_origens(ag.origens@, resumo.recebidas) + secao_avisos(envios, ag)
        + secao_conferencia(conf) + "\n"@
}

/// O texto das tabelas de um teste, pronto para a saída padrão.
pub fn imprimir_tabelas(
    cfg: &Config,
    plano: &Vec<GeradorPlano>,
    envios: &Vec<EnvioGerador>,
    ag: &Agregado,
    conf: &Conferencia,
    resumo: &Resumo,
) -> (t: String)
    ensures
        t@ == tabelas(*cfg, plano@, envios@, *ag, *conf, *resumo),
{
    let mut t = escrever_resumo(resumo);
    t.append(escrever_receptores(cfg, ag, resumo).as_str());
    t.append(escrever_geradores(plano, envios, &ag.recebidas_por_gerador).as_str());
    t.append(escrever_origens(&ag.origens, resumo.recebidas).as_str());
    t.append(avisar(envios, ag).as_str());
    t.append(escrever_conferencia(conf).as_str());
    t.append("\n");
    t
}

// ---- Relatório ----

/// As latências de um receptor, em microssegundos.
pub struct LatenciaRelatada {
    pub p50: u64,
    pub p90: u64,
    pub p99: u64,
    pub max: u64,
}

/// Um receptor no relatório.
pub struct ReceptorRelatado {
    pub nome: String,
    pub recebidas: u64,
    pub fatia_pct: Real,
    pub desvio_pct: Real,
    pub latencia_us: LatenciaRelatada,
    pub por_gerador: Tabela<u64>,
}

/// Um gerador no relatório.
pub struct GeradorRelatado {
    pub nome: String,
    pub proto: String,
    pub peso: Real,
    pub fatia_pct: Real,
    pub taxa_alvo: u64,
    pub taxa_real: Real,
    pub enviadas: u64,
    pub recebidas: u64,
    pub perdidas: i64,
    pub erros_envio: u64,
}

/// Uma origem no relatório.
pub struct OrigemRelatada {
    pub origem: String,
    pub relay: String,
    pub mensagens: u64,
    pub fatia_pct: Real,
}

/// O resumo no relatório.
pub struct ResumoRelatado {
    pub janela_s: Real,
    pub enviadas: u64,
    pub recebidas: u64,
    pub perdidas: i64,
    pub perda_pct: Real,
    pub vazao_msg_s: Real,
    pub vazao_mb_s: Real,
    pub desvio_maximo_pct: Real,
    pub veredito: String,
}

/// O que não entrou nas métricas.
pub struct Diagnostico {
    pub descartadas_aquecimento: u64,
    pub linhas_invalidas: u64,
    pub anomalias_relogio: u64,
}

/// O relatório de um teste; cada campo é o membro de mesmo nome do documento JSON.
pub struct Relatorio {
    pub resumo: ResumoRelatado,
    pub receptores: Vec<ReceptorRelatado>,
    pub geradores: Vec<GeradorRelatado>,
    pub origens: Vec<OrigemRelatada>,
    pub conferencia: Conferencia,
    pub diagnostico: Diagnostico,
}

impl ResumoRelatado {
    /// Se é o que se relata do resumo.
    pub open spec fn relata(self, r: Resumo) -> bool {
        &&& self.janela_s == r.janela_s
        &&& self.enviadas == r.enviadas
        &&& self.recebidas == r.recebidas
        &&& self.perdidas == r.perdidas
        &&& self.perda_pct == r.perda_pct
        &&& self.vazao_msg_s == r.vazao
        &&& self.vazao_mb_s == r.mb_s
        &&& self.desvio_maximo_pct == r.desvio_maximo
        &&& self.veredito@ == Veredito::do_desvio(r.desvio_maximo).escrito()
    }
}

impl ReceptorRelatado {
    /// Se é o que se relata do receptor.
    pub open spec fn relata(self, r: EstatReceptor, recebidas: u64, ideal: Real) -> bool {
        let fatia = porcentagem(r.recebidas as int, recebidas);
        let m = registradas(r.latencia);
        &&& self.nome@ == r.nome@
        &&& self.recebidas == r.recebidas
        &&& self.fatia_pct == fatia
        &&& self.desvio_pct == fatia.diferenca(ideal)
        &&& self.latencia_us.p50 == percentil(m, 50)
        &&& self.latencia_us.p90 == percentil(m, 90)
        &&& self.latencia_us.p99 == percentil(m, 99)
        &&& self.latencia_us.max == maximo(m)
        &&& self.por_gerador@ == r.por_gerador@
    }
}

impl GeradorRelatado {
    /// Se é o que se relata do gerador do plano; sem relatório de envio, os números são zero.
    pub open spec fn relata(
        self,
        p: GeradorPlano,
        es: Seq<EnvioGerador>,
        recebidas: Seq<(Seq<char>, u64)>,
    ) -> bool {
        let e = envio_de(es, p.nome@);
        let enviadas = match e {
            Some(e) => e.enviadas_uteis,
            None => 0,
        };
        &&& self.nome@ == p.nome@
        &&& self.proto@ == p.proto.escrito()
        &&& self.peso == p.peso
        &&& self.fatia_pct == p.fatia.produto(Real::do_inteiro(100))
        &&& self.taxa_alvo == p.taxa
        &&& self.taxa_real == match e {
            Some(e) => e.taxa_real,
            None => Real::do_inteiro(0),
        }
        &&& self.enviadas == enviadas
        &&& self.recebidas == contagem(recebidas, p.nome@)
        &&& self.perdidas == diferenca(enviadas, contagem(recebidas, p.nome@))
        &&& self.erros_envio == match e {
            Some(e) => e.erros_envio,
            None => 0,
        }
    }
}

impl OrigemRelatada {
    /// Se é o que se relata da origem.
    pub open spec fn relata(self, o: Origem, recebidas: u64) -> bool {
        &&& self.origem@ == o.origem@
        &&& self.relay@ == o.relay@
        &&& self.mensagens == o.mensagens
        &&& self.fatia_pct == porcentagem(o.mensagens as int, recebidas)
    }
}

impl Relatorio {
    /// Se é o relatório de um teste.
    pub open spec fn relata(
        self,
        cfg: Config,
        plano: Seq<GeradorPlano>,
        envios: Seq<EnvioGerador>,
        ag: Agregado,
        conf: Conferencia,
        resumo: Resumo,
    ) -> bool {
        let ideal = fatia_ideal(cfg.receptores.quantidade);
        &&& self.resumo.relata(resumo)
        &&& self.receptores@.len() == ag.receptores@.len()
        &&& forall|i: int|
            0 <= i < ag.receptores@.len() ==> (#[trigger] self.receptores@[i]).relata(
                ag.receptores@[i],
                resumo.recebidas,
                ideal,
            )
        &&& self.geradores@.len() == plano.len()
        &&& forall|i: int|
            0 <= i < plano.len() ==> (#[trigger] self.geradores@[i]).relata(
                plano[i],
                envios,
                ag.recebidas_por_gerador@,
            )
        &&& self.origens@.len() == ag.origens@.len()
        &&& forall|i: int|
            0 <= i < ag.origens@.len() ==> (#[trigger] self.origens@[i]).relata(
                ag.origens@[i],
                resumo.recebidas,
            )
        &&& self.conferencia == conf
        &&& self.diagnostico.descartadas_aquecimento == ag.descartadas_aquecimento
        &&& self.diagnostico.linhas_invalidas == ag.linhas_invalidas
        &&& self.diagnostico.anomalias_relogio == ag.anomalias_relogio
    }
}

fn relatar_resumo(r: &Resumo) -> (j: ResumoRelatado)
    ensures
        j.relata(*r),
{
    ResumoRelatado {
        janela_s: r.janela_s,
        enviadas: r.enviadas,
        recebidas: r.recebidas,
        perdidas: r.perdidas,
        perda_pct: r.perda_pct,
        vazao_msg_s: r.vazao,
        vazao_mb_s: r.mb_s,
        desvio_maximo_pct: r.desvio_maximo,
        veredito: Veredito::avaliar(r.desvio_maximo).texto().to_owned(),
    }
}

fn relatar_receptor(r: &EstatReceptor, recebidas: u64, ideal: Real) -> (j: ReceptorRelatado)
    ensures
        j.relata(*r, recebidas, ideal),
{
    let fatia_pct = em_porcentagem(r.recebidas as i128, recebidas);
    ReceptorRelatado {
        nome: r.nome.clone(),
        recebidas: r.recebidas,
        fatia_pct,
        desvio_pct: fatia_pct.subtrair(ideal),
        latencia_us: LatenciaRelatada {
            p50: r.percentil_us(50),
            p90: r.percentil_us(90),
            p99: r.percentil_us(99),
            max: r.maximo_us(),
        },
        por_gerador: r.por_gerador.copia(),
    }
}

fn relatar_gerador(p: &GeradorPlano, es: &Vec<EnvioGerador>, recebidas: &Tabela<u64>) -> (j:
    GeradorRelatado)
    ensures
        j.relata(*p, es@, recebidas@),
{
    let n = recebidas.ler(p.nome.as_str());
    let (enviadas, taxa_real, erros_envio) = match achar_envio(es, p.nome.as_str()) {
        Some(e) => (e.enviadas_uteis, e.taxa_real, e.erros_envio),
        None => (0, Real::de_u64(0), 0),
    };
    GeradorRelatado {
        nome: p.nome.clone(),
        proto: p.proto.texto().to_owned(),
        peso: p.peso,
        fatia_pct: p.fatia.multiplicar(Real::de_u64(100)),
        taxa_alvo: p.taxa,
        taxa_real,
        enviadas,
        recebidas: n,
        perdidas: subtrair(enviadas, n),
        erros_envio,
    }
}

fn relatar_receptores(rs: &Vec<EstatReceptor>, recebidas: u64, ideal: Real) -> (js: Vec<
    ReceptorRelatado,
>)
    ensures
        js@.len() == rs@.len(),
        forall|i: int|
            0 <= i < rs@.len() ==> (#[trigger] js@[i]).relata(rs@[i], recebidas, ideal),
{
    let mut js: Vec<ReceptorRelatado> = Vec::new();
    let mut i: usize = 0;
    while i < rs.len()
        invariant
            i <= rs@.len(),
            js@.len() == i,
            forall|k: int| 0 <= k < i ==> (#[trigger] js@[k]).relata(rs@[k], recebidas, ideal),
        decreases rs@.len() - i,
    {
        js.push(relatar_receptor(&rs[i], recebidas, ideal));
        i = i + 1;
    }
    js
}

fn relatar_geradores(ps: &Vec<GeradorPlano>, es: &Vec<EnvioGerador>, recebidas: &Tabela<u64>) -> (js:
    Vec<GeradorRelatado>)
    ensures
        js@.len() == ps@.len(),
        forall|i: int|
            0 <= i < ps@.len() ==> (#[trigger] js@[i]).relata(ps@[i], es@, recebidas@),
{
    let mut js: Vec<GeradorRelatado> = Vec::new();
    let mut i: usize = 0;
    while i < ps.len()
        invariant
            i <= ps@.len(),
            js@.len() == i,
            forall|k: int| 0 <= k < i ==> (#[trigger] js@[k]).relata(ps@[k], es@, recebidas@),
        decreases ps@.len() - i,
    {
        js.push(relatar_gerador(&ps[i], es, recebidas));
        i = i + 1;
    }
    js
}

fn relatar_origens(os: &Vec<Origem>, recebidas: u64) -> (js: Vec<OrigemRelatada>)
    ensures
        js@.len() == os@.len(),
        forall|i: int| 0 <= i < os@.len() ==> (#[trigger] js@[i]).relata(os@[i], recebidas),
{
    let mut js: Vec<OrigemRelatada> = Vec::new();
    let mut i: usize = 0;
    while i < os.len()
        invariant
            i <= os@.len(),
            js@.len() == i,
            forall|k: int| 0 <= k < i ==> (#[trigger] js@[k]).relata(os@[k], recebidas),
        decreases os@.len() - i,
    {
        let o = &os[i];
        js.push(
            OrigemRelatada {
                origem: o.origem.clone(),
                relay: o.relay.clone(),
                mensagens: o.mensagens,
                fatia_pct: em_porcentagem(o.mensagens as i128, recebidas),
            },
        );
        i = i + 1;
    }
    js
}

/// Monta o relatório de um teste.
pub fn montar_json(
    cfg: &Config,
    plano: &Vec<GeradorPlano>,
    envios: &Vec<EnvioGerador>,
    ag: &Agregado,
    conf: &Conferencia,
    resumo: &Resumo,
) -> (j: Relatorio)
    ensures
        j.relata(*cfg, plano@, envios@, *ag, *conf, *resumo),
{
    let ideal = calcular_ideal(cfg.receptores.quantidade);
    Relatorio {
        resumo: relatar_resumo(resumo),
        receptores: relatar_receptores(&ag.receptores, resumo.recebidas, ideal),
        geradores: relatar_geradores(plano, envios, &ag.recebidas_por_gerador),
        origens: relatar_origens(&ag.origens, resumo.recebidas),
        conferencia: Conferencia {
            recebidas_relay: conf.recebidas_relay,
            encaminhadas: conf.encaminhadas,
            na_fila: conf.na_fila,
            descartadas_fila: conf.descartadas_fila,
            disponivel: conf.disponivel,
        },
        diagnostico: Diagnostico {
            descartadas_aquecimento: ag.descartadas_aquecimento,
            linhas_invalidas: ag.linhas_invalidas,
            anomalias_relogio: ag.anomalias_relogio,
        },
    }
}

// ---- Leis ----

/// O texto sem os pontos.
pub open spec fn sem_pontos(s: Seq<char>) -> Seq<char>
    decreases s.len(),
{
    if s.len() == 0 {
        Seq::empty()
    } else if s.last() == '.' {
        sem_pontos(s.drop_last())
    } else {
        sem_pontos(s.drop_last()).push(s.last())
    }
}

proof fn lemma_sem_pontos_concatenado(a: Seq<char>, b: Seq<char>)
    ensures
        sem_pontos(a + b) == sem_pontos(a) + sem_pontos(b),
    decreases b.len(),
{
    if b.len() == 0 {
        assert(a + b =~= a);
        assert(sem_pontos(a) + sem_pontos(b) =~= sem_pontos(a));
    } else {
        lemma_sem_pontos_concatenado(a, b.drop_last());
        assert((a + b).drop_last() =~= a + b.drop_last());
        assert((a + b).last() == b.last());
        assert(sem_pontos(a + b) =~= sem_pontos(a) + sem_pontos(b));
    }
}

proof fn lemma_so_algarismos_sem_pontos(d: Seq<char>)
    requires
        forall|i: int| 0 <= i < d.len() ==> '0' <= #[trigger] d[i] <= '9',
    ensures
        sem_pontos(d) == d,
    decreases d.len(),
{
    if d.len() > 0 {
        lemma_so_algarismos_sem_pontos(d.drop_last());
        assert('0' <= d[d.len() - 1] <= '9');
        assert(d.drop_last().push(d.last()) =~= d);
    }
}

proof fn lemma_agrupado_sem_pontos(d: Seq<char>)
    requires
        forall|i: int| 0 <= i < d.len() ==> '0' <= #[trigger] d[i] <= '9',
    ensures
        sem_pontos(agrupado(d)) == d,
    decreases d.len(),
{
    if d.len() <= 3 {
        lemma_so_algarismos_sem_pontos(d);
    } else {
        let a = d.take(d.len() - 3);
        let b = d.skip(d.len() - 3);
        lemma_agrupado_sem_pontos(a);
        lemma_so_algarismos_sem_pontos(b);
        lemma_sem_pontos_concatenado(agrupado(a) + "."@, b);
        lemma_sem_pontos_concatenado(agrupado(a), "."@);
        reveal_strlit(".");
        assert("."@.drop_last() =~= Seq::<char>::empty());
        assert(sem_pontos("."@.drop_last()) =~= Seq::<char>::empty());
        assert(sem_pontos("."@) =~= Seq::<char>::empty());
        assert(sem_pontos(agrupado(a)) + sem_pontos("."@) =~= a);
        assert(a + b =~= d);
    }
}

/// Os pontos só separam: sem eles o numeral é o do próprio número.
pub proof fn lei_milhares_sem_pontos(n: u64)
    ensures
        sem_pontos(com_milhares(n)) == digitos(n as nat),
{
    lemma_digitos_sao_algarismos(n as nat);
    lemma_agrupado_sem_pontos(digitos(n as nat));
}

/// O que se perdeu é o que se enviou menos o que se recebeu, quando cabe em 64 bits com sinal.
pub proof fn lei_perdidas(enviadas: u64, recebidas: u64)
    requires
        i64::MIN <= enviadas - recebidas <= i64::MAX,
    ensures
        diferenca(enviadas, recebidas) == enviadas - recebidas,
{
}

} // verus!
