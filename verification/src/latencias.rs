//! Histograma de latências, em microssegundos.

use vstd::arithmetic::div_mod::{
    lemma_div_is_ordered, lemma_fundamental_div_mod, lemma_fundamental_div_mod_converse,
};
use vstd::arithmetic::power2::{lemma2_to64, lemma_pow2_adds, lemma_pow2_pos, pow2};
use vstd::multiset::Multiset;
use vstd::prelude::*;

use crate::arredonda::{
    bits, lemma_bits_intervalo, lemma_bits_limites, lemma_pow2_monotona, magnitude,
};
use crate::proporcao::{
    lemma_magnitude_escala, lemma_magnitude_monotona, lemma_natural_finito, lemma_natural_positivo,
};
use crate::reais::{inteiro, lemma_inteiro_ordenado, um, Real};

verus! {

/// Latência máxima registrável no histograma: 60 s em microssegundos.
pub const LATENCIA_MAXIMA_US: u64 = 60_000_000;

/// Menor latência distinguível no histograma, em microssegundos.
pub const LATENCIA_MINIMA_US: u64 = 1;

/// Algarismos significativos que o histograma preserva.
pub const PRECISAO: u8 = 3;

/// As latências de um receptor, num `hdrhistogram::Histogram`.
///
/// O histograma não guarda cada valor, e sim quantos caíram em cada faixa; o que foi
/// registrado é `registradas`.
#[verifier::external_body]
pub struct Latencias {
    histograma: hdrhistogram::Histogram<u64>,
}

/// Os valores registrados no histograma.
pub uninterp spec fn registradas(l: Latencias) -> Multiset<u64>;

/// Quantos valores vizinhos o histograma conta como um só: um até 2047, e daí em diante o dobro
/// a cada potência de dois.
pub open spec fn largura(v: u64) -> nat {
    if bits(v as nat) <= 11 {
        1
    } else {
        pow2((bits(v as nat) - 11) as nat)
    }
}

/// O menor valor da faixa em que `v` é contado.
pub open spec fn piso_da_faixa(v: u64) -> int {
    v - v as int % largura(v) as int
}

/// O maior valor da faixa em que `v` é contado.
pub open spec fn topo_da_faixa(v: u64) -> int {
    piso_da_faixa(v) + largura(v) - 1
}

/// Quantos dos valores não passam de `x`.
pub open spec fn quantos_ate(m: Multiset<u64>, x: int) -> nat {
    m.filter(|w: u64| w <= x).len()
}

/// A fração que corresponde a `p` por cento, limitada a um.
pub open spec fn fracao(p: u8) -> Real {
    if p > 100 {
        Real::do_inteiro(1)
    } else {
        Real::do_inteiro(p as int).quociente(Real::do_inteiro(100))
    }
}

/// Quantos de `n` valores precisam estar no percentil `p` ou abaixo: a fração de `n`, arredondada
/// para cima, e no mínimo um.
pub open spec fn alvo(p: u8, n: nat) -> int {
    let x = (fracao(p).produto(Real::do_inteiro(n as int)).valor() + um() - 1) / um() as int;
    if x < 1 {
        1
    } else if x > u64::MAX {
        u64::MAX as int
    } else {
        x
    }
}

/// Se a faixa de `v` é a primeira em que se alcança o alvo do percentil `p`.
pub open spec fn na_faixa_do_percentil(m: Multiset<u64>, p: u8, v: u64) -> bool {
    &&& m.contains(v)
    &&& quantos_ate(m, topo_da_faixa(v)) >= alvo(p, m.len())
    &&& quantos_ate(m, piso_da_faixa(v) - 1) < alvo(p, m.len())
}

/// O percentil `p` dos valores: o topo da primeira faixa que alcança o alvo (o piso, para o
/// percentil zero), ou zero se nenhuma alcança.
pub open spec fn percentil(m: Multiset<u64>, p: u8) -> int {
    let v = choose|v: u64| na_faixa_do_percentil(m, p, v);
    if m.len() < alvo(p, m.len()) {
        0
    } else if p == 0 {
        piso_da_faixa(v)
    } else {
        topo_da_faixa(v)
    }
}

/// Se `v` é o maior dos valores.
pub open spec fn eh_o_maior(m: Multiset<u64>, v: u64) -> bool {
    m.contains(v) && forall|w: u64| #[trigger] m.contains(w) ==> w <= v
}

/// O topo da faixa do maior dos valores, ou zero se não há nenhum.
pub open spec fn maximo(m: Multiset<u64>) -> int {
    if m.len() == 0 {
        0
    } else {
        topo_da_faixa(choose|v: u64| eh_o_maior(m, v))
    }
}

impl Latencias {
    /// `hdrhistogram::Histogram::new_with_bounds`: com estes limites e esta precisão a criação
    /// sempre dá certo, e o histograma começa vazio.
    #[verifier::external_body]
    fn criar(menor: u64, maior: u64, precisao: u8) -> (r: Option<Latencias>)
        requires
            menor == LATENCIA_MINIMA_US,
            maior == LATENCIA_MAXIMA_US,
            precisao == PRECISAO,
        ensures
            r is Some,
            registradas(r->0) == Multiset::<u64>::empty(),
    {
        match hdrhistogram::Histogram::new_with_bounds(menor, maior, precisao) {
            Ok(histograma) => Some(Latencias { histograma }),
            Err(_) => None,
        }
    }

    /// `hdrhistogram::Histogram::record`: dentro do limite de criação, acrescenta o valor aos
    /// registrados. Os contadores são `u64`, daí o limite na quantidade.
    #[verifier::external_body]
    pub(crate) fn registrar(&mut self, v: u64) -> (r: bool)
        requires
            v <= LATENCIA_MAXIMA_US,
            registradas(*old(self)).len() < u64::MAX,
        ensures
            r,
            registradas(*final(self)) == registradas(*old(self)).insert(v),
    {
        self.histograma.record(v).is_ok()
    }

    /// `hdrhistogram::Histogram::value_at_percentile`: o percentil `p` do que foi registrado.
    #[verifier::external_body]
    pub(crate) fn no_percentil(&self, p: u8) -> (r: u64)
        ensures
            r == percentil(registradas(*self), p),
    {
        self.histograma.value_at_percentile(p.into())
    }

    /// `hdrhistogram::Histogram::max`: o topo da faixa do maior valor registrado.
    #[verifier::external_body]
    pub(crate) fn maior(&self) -> (r: u64)
        ensures
            r == maximo(registradas(*self)),
    {
        self.histograma.max()
    }

    /// Um histograma vazio.
    pub fn nova() -> (r: Latencias)
        ensures
            registradas(r) == Multiset::<u64>::empty(),
    {
        Latencias::criar(LATENCIA_MINIMA_US, LATENCIA_MAXIMA_US, PRECISAO).unwrap()
    }
}

// ---- Leis ----

/// Subir o limite não diminui a contagem.
proof fn lemma_quantos_ate_monotona(m: Multiset<u64>, x: int, y: int)
    requires
        x <= y,
    ensures
        quantos_ate(m, x) <= quantos_ate(m, y),
{
    let a = m.filter(|w: u64| w <= x);
    let b = m.filter(|w: u64| w <= y);
    assert(a.subset_of(b)) by {
        assert forall|v: u64| a.count(v) <= b.count(v) by {}
    }
    assert(b.sub(a).len() == b.len() - a.len());
}

/// Os limites da faixa de `v`, em múltiplos da largura.
proof fn lemma_faixa(v: u64)
    ensures
        largura(v) >= 1,
        piso_da_faixa(v) <= v <= topo_da_faixa(v),
        piso_da_faixa(v) >= 0,
        bits(v as nat) > 11 ==> pow2((bits(v as nat) - 1) as nat) <= piso_da_faixa(v)
            && topo_da_faixa(v) < pow2(bits(v as nat)),
{
    let b = bits(v as nat);
    if b > 11 {
        let k = (b - 11) as nat;
        let l = pow2(k);
        lemma_pow2_pos(k);
        lemma_bits_limites(v as nat);
        lemma_pow2_adds(11, k);
        lemma_pow2_adds(10, k);
        lemma2_to64();
        let q = v as int / l as int;
        let r = v as int % l as int;
        lemma_fundamental_div_mod(v as int, l as int);
        assert(pow2((b - 1) as nat) == 1024 * l);
        assert(pow2(b) == 2048 * l);
        assert(q < 2048) by (nonlinear_arith)
            requires
                v == l * q + r,
                r >= 0,
                v < 2048 * l,
                l > 0,
        ;
        assert(q >= 1024) by (nonlinear_arith)
            requires
                v == l * q + r,
                r < l,
                v >= 1024 * l,
                l > 0,
        ;
        assert(1024 * l <= l * q <= 2047 * l) by (nonlinear_arith)
            requires
                1024 <= q <= 2047,
                l > 0,
        ;
    }
}

/// Um valor entre o piso e o topo da faixa de `v` tem a mesma faixa.
proof fn lemma_mesma_faixa(v: u64, w: u64)
    requires
        piso_da_faixa(v) <= w <= topo_da_faixa(v),
    ensures
        piso_da_faixa(w) == piso_da_faixa(v),
        topo_da_faixa(w) == topo_da_faixa(v),
{
    lemma_faixa(v);
    let b = bits(v as nat);
    if b > 11 {
        lemma_bits_intervalo(w as nat, b);
        let l = largura(v) as int;
        let q = v as int / l;
        let r = v as int % l;
        lemma_fundamental_div_mod(v as int, l);
        assert(w == q * l + (w - l * q)) by (nonlinear_arith);
        lemma_fundamental_div_mod_converse(w as int, l, q, w - l * q);
    }
}

/// Duas faixas distintas não se sobrepõem.
proof fn lemma_faixas_separadas(v: u64, w: u64)
    requires
        v <= w,
        topo_da_faixa(v) != topo_da_faixa(w),
    ensures
        topo_da_faixa(v) < piso_da_faixa(w),
{
    lemma_faixa(v);
    lemma_faixa(w);
    if topo_da_faixa(v) >= piso_da_faixa(w) {
        if v >= piso_da_faixa(w) {
            lemma_mesma_faixa(w, v);
        } else {
            let x = piso_da_faixa(w) as u64;
            lemma_mesma_faixa(w, x);
            lemma_mesma_faixa(v, x);
        }
    }
}

/// A faixa em que se alcança o alvo de um percentil é uma só.
pub proof fn lei_percentil_unico(m: Multiset<u64>, p: u8, v: u64, w: u64)
    requires
        na_faixa_do_percentil(m, p, v),
        na_faixa_do_percentil(m, p, w),
    ensures
        piso_da_faixa(v) == piso_da_faixa(w),
        topo_da_faixa(v) == topo_da_faixa(w),
{
    if topo_da_faixa(v) != topo_da_faixa(w) {
        if v <= w {
            lemma_faixas_separadas(v, w);
            lemma_quantos_ate_monotona(m, topo_da_faixa(v), piso_da_faixa(w) - 1);
        } else {
            lemma_faixas_separadas(w, v);
            lemma_quantos_ate_monotona(m, topo_da_faixa(w), piso_da_faixa(v) - 1);
        }
    } else {
        lemma_faixa(v);
        lemma_faixa(w);
        if v <= w {
            lemma_mesma_faixa(v, w);
        } else {
            lemma_mesma_faixa(w, v);
        }
    }
}

/// O percentil é o da faixa de qualquer valor que alcance o alvo.
pub proof fn lei_percentil(m: Multiset<u64>, p: u8, v: u64)
    requires
        na_faixa_do_percentil(m, p, v),
    ensures
        percentil(m, p) == if p == 0 {
            piso_da_faixa(v)
        } else {
            topo_da_faixa(v)
        },
{
    lemma_quantos_do_total(m, topo_da_faixa(v));
    lei_percentil_unico(m, p, v, choose|v: u64| na_faixa_do_percentil(m, p, v));
}

proof fn lemma_quantos_do_total(m: Multiset<u64>, x: int)
    ensures
        quantos_ate(m, x) <= m.len(),
{
    let a = m.filter(|w: u64| w <= x);
    assert(a.subset_of(m)) by {
        assert forall|v: u64| a.count(v) <= m.count(v) by {}
    }
    assert(m.sub(a).len() == m.len() - a.len());
}

/// O máximo é o topo da faixa do maior valor.
pub proof fn lei_maximo(m: Multiset<u64>, v: u64)
    requires
        eh_o_maior(m, v),
    ensures
        maximo(m) == topo_da_faixa(v),
{
    let w = choose|v: u64| eh_o_maior(m, v);
    assert(eh_o_maior(m, w));
    assert(v == w);
    assert(m.count(v) <= m.len());
}

/// Até 2047 microssegundos cada valor tem a sua faixa.
pub proof fn lei_faixas_exatas(v: u64)
    requires
        v < 2048,
    ensures
        piso_da_faixa(v) == v,
        topo_da_faixa(v) == v,
{
    lemma2_to64();
    if bits(v as nat) > 11 {
        lemma_bits_limites(v as nat);
        lemma_pow2_monotona(11, (bits(v as nat) - 1) as nat);
    }
}

/// Quanto maior o percentil, maior o alvo.
proof fn lemma_alvo_monotono(p: u8, q: u8, n: nat)
    requires
        p <= q,
        n <= u64::MAX,
    ensures
        alvo(p, n) <= alvo(q, n),
{
    let total = Real::do_inteiro(n as int);
    lemma_natural_finito(n as u64);
    lemma_fracao_monotona(p, q);
    let x = fracao(p);
    let y = fracao(q);
    lemma_pow2_pos(1074);
    lemma_inteiro_ordenado(x.mag(), y.mag());
    assert(inteiro(x.mag()) * inteiro(total.mag()) <= inteiro(y.mag()) * inteiro(total.mag()))
        by (nonlinear_arith)
        requires
            inteiro(x.mag()) <= inteiro(y.mag()),
    ;
    let a = magnitude(inteiro(x.mag()) * inteiro(total.mag()), um());
    let b = magnitude(inteiro(y.mag()) * inteiro(total.mag()), um());
    lemma_magnitude_monotona(
        inteiro(x.mag()) * inteiro(total.mag()),
        inteiro(y.mag()) * inteiro(total.mag()),
        um(),
    );
    lemma_inteiro_ordenado(a, b);
    assert(x.produto(total).valor() == inteiro(a));
    assert(y.produto(total).valor() == inteiro(b));
    lemma_div_is_ordered(inteiro(a) + um() - 1, inteiro(b) + um() - 1, um() as int);
}

/// As frações dos percentis são números de zero a um, em ordem.
proof fn lemma_fracao_monotona(p: u8, q: u8)
    requires
        p <= q,
    ensures
        !fracao(p).negativo(),
        !fracao(q).negativo(),
        fracao(p).finito(),
        fracao(q).finito(),
        fracao(p).mag() <= fracao(q).mag(),
{
    lemma_natural_finito(1);
    lemma_fracao(p);
    lemma_fracao(q);
    let cem = inteiro(Real::do_inteiro(100).mag());
    if q <= 100 {
        lemma_natural_ordenado(p as u64, q as u64);
        let a = inteiro(Real::do_inteiro(p as int).mag());
        let b = inteiro(Real::do_inteiro(q as int).mag());
        assert(a * um() <= b * um()) by (nonlinear_arith)
            requires
                a <= b,
        ;
        lemma_magnitude_monotona(a * um(), b * um(), cem);
    }
}

/// A fração de um percentil é um número de zero a um.
proof fn lemma_fracao(p: u8)
    ensures
        !fracao(p).negativo(),
        fracao(p).finito(),
        fracao(p).mag() <= Real::do_inteiro(1).mag(),
        p <= 100 ==> fracao(p).mag() == magnitude(
            inteiro(Real::do_inteiro(p as int).mag()) * um(),
            inteiro(Real::do_inteiro(100).mag()),
        ),
        inteiro(Real::do_inteiro(100).mag()) > 0,
{
    lemma_natural_finito(1);
    lemma_natural_positivo(100);
    lemma_natural_finito(100);
    if p <= 100 {
        lemma_natural_finito(p as u64);
        lemma_natural_ordenado(p as u64, 100);
        let a = inteiro(Real::do_inteiro(p as int).mag());
        let cem = inteiro(Real::do_inteiro(100).mag());
        assert(a * um() <= cem * um()) by (nonlinear_arith)
            requires
                a <= cem,
        ;
        lemma_magnitude_monotona(a * um(), cem * um(), cem);
        lemma_magnitude_escala(um(), 1, cem);
        assert(um() * cem == cem * um()) by (nonlinear_arith);
        assert(1 * cem == cem);
        assert(1 * um() == um());
    }
}

/// Os naturais pequenos conservam a ordem em ponto flutuante.
proof fn lemma_natural_ordenado(a: u64, b: u64)
    requires
        a <= b,
    ensures
        Real::do_inteiro(a as int).mag() <= Real::do_inteiro(b as int).mag(),
        inteiro(Real::do_inteiro(a as int).mag()) <= inteiro(Real::do_inteiro(b as int).mag()),
{
    lemma_natural_finito(a);
    lemma_natural_finito(b);
    assert(a as nat * um() <= b as nat * um()) by (nonlinear_arith)
        requires
            a <= b,
    ;
    lemma_magnitude_monotona(a as nat * um(), b as nat * um(), 1);
    lemma_inteiro_ordenado(
        Real::do_inteiro(a as int).mag(),
        Real::do_inteiro(b as int).mag(),
    );
}

/// O maior dos valores que não passam de `x`.
proof fn lemma_maior_ate(m: Multiset<u64>, x: nat, e: u64) -> (w: u64)
    requires
        m.contains(e),
        e <= x,
    ensures
        m.contains(w),
        w <= x,
        forall|u: u64| #[trigger] m.contains(u) && u <= x ==> u <= w,
    decreases x,
{
    if x <= u64::MAX && m.contains(x as u64) {
        x as u64
    } else {
        lemma_maior_ate(m, (x - 1) as nat, e)
    }
}

/// Se algum valor não passa de `x`, há um tal valor.
proof fn lemma_algum_ate(m: Multiset<u64>, x: int) -> (e: u64)
    requires
        quantos_ate(m, x) > 0,
    ensures
        m.contains(e),
        e <= x,
{
    let a = m.filter(|w: u64| w <= x);
    let e = a.choose();
    assert(a.count(e) > 0);
    e
}

/// O menor dos valores cuja faixa alcança o alvo.
proof fn lemma_menor_que_alcanca(m: Multiset<u64>, n: int, e: u64) -> (w: u64)
    requires
        m.contains(e),
        quantos_ate(m, topo_da_faixa(e)) >= n,
    ensures
        m.contains(w),
        quantos_ate(m, topo_da_faixa(w)) >= n,
        forall|u: u64| #[trigger] m.contains(u) && u < w ==> quantos_ate(m, topo_da_faixa(u)) < n,
    decreases e,
{
    if exists|u: u64| #[trigger]
        m.contains(u) && u < e && quantos_ate(m, topo_da_faixa(u)) >= n {
        let u = choose|u: u64| #[trigger]
            m.contains(u) && u < e && quantos_ate(m, topo_da_faixa(u)) >= n;
        lemma_menor_que_alcanca(m, n, u)
    } else {
        e
    }
}

/// Sempre que há valores bastantes, alguma faixa alcança o alvo do percentil.
pub proof fn lei_percentil_existe(m: Multiset<u64>, p: u8) -> (v: u64)
    requires
        alvo(p, m.len()) <= m.len(),
    ensures
        na_faixa_do_percentil(m, p, v),
{
    let n = alvo(p, m.len());
    let e = m.choose();
    assert(m.count(e) > 0);
    let maior = lemma_maior_ate(m, u64::MAX as nat, e);
    lemma_faixa(maior);
    let todos = m.filter(|w: u64| w <= topo_da_faixa(maior));
    assert(todos =~= m) by {
        assert forall|u: u64| todos.count(u) == m.count(u) by {
            if m.count(u) > 0 {
                assert(m.contains(u));
            }
        }
    }
    let v = lemma_menor_que_alcanca(m, n, maior);
    lemma_faixa(v);
    let x = piso_da_faixa(v) - 1;
    if quantos_ate(m, x) >= n {
        let f = lemma_algum_ate(m, x);
        let g = lemma_maior_ate(m, x as nat, f);
        lemma_faixa(g);
        let a = m.filter(|w: u64| w <= x);
        let b = m.filter(|w: u64| w <= topo_da_faixa(g));
        assert(a.subset_of(b)) by {
            assert forall|u: u64| a.count(u) <= b.count(u) by {
                if a.count(u) > 0 {
                    assert(m.contains(u));
                }
            }
        }
        assert(b.sub(a).len() == b.len() - a.len());
        assert(quantos_ate(m, topo_da_faixa(g)) >= n);
    }
    v
}

/// O percentil de porcentagem maior alcança um valor que não é menor.
proof fn lemma_percentis_em_ordem(m: Multiset<u64>, p: u8, q: u8, v: u64, w: u64)
    requires
        m.len() <= u64::MAX,
        p <= q,
        na_faixa_do_percentil(m, p, v),
        na_faixa_do_percentil(m, q, w),
    ensures
        percentil(m, p) <= percentil(m, q) <= topo_da_faixa(w),
{
    lei_percentil(m, p, v);
    lei_percentil(m, q, w);
    lemma_faixa(v);
    lemma_faixa(w);
    lemma_alvo_monotono(p, q, m.len());
    if topo_da_faixa(v) != topo_da_faixa(w) {
        if v > w {
            lemma_faixas_separadas(w, v);
            lemma_quantos_ate_monotona(m, topo_da_faixa(w), piso_da_faixa(v) - 1);
        } else {
            lemma_faixas_separadas(v, w);
        }
    } else if v <= w {
        lemma_mesma_faixa(v, w);
    } else {
        lemma_mesma_faixa(w, v);
    }
}

/// Os percentis crescem com a porcentagem, e nenhum passa do máximo.
pub proof fn lei_percentis_em_ordem(m: Multiset<u64>, p: u8, q: u8)
    requires
        m.len() <= u64::MAX,
        p <= q,
        alvo(q, m.len()) <= m.len(),
    ensures
        percentil(m, p) <= percentil(m, q) <= maximo(m),
{
    lemma_alvo_monotono(p, q, m.len());
    let v = lei_percentil_existe(m, p);
    let w = lei_percentil_existe(m, q);
    lemma_percentis_em_ordem(m, p, q, v, w);
    let maior = lemma_maior_ate(m, u64::MAX as nat, w);
    assert(eh_o_maior(m, maior));
    lei_maximo(m, maior);
    lemma_faixa(w);
    lemma_faixa(maior);
    if topo_da_faixa(w) != topo_da_faixa(maior) {
        lemma_faixas_separadas(w, maior);
    }
}

} // verus!
