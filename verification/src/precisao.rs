//! A precisão das contas em ponto flutuante: o que cada uma guarda e o quanto erra.

use vstd::arithmetic::div_mod::{
    lemma_div_is_ordered, lemma_fundamental_div_mod, lemma_fundamental_div_mod_converse,
};
use vstd::arithmetic::power2::{
    lemma2_to64, lemma2_to64_rest, lemma_pow2_adds, lemma_pow2_pos, pow2,
};
use vstd::prelude::*;

use crate::arredonda::{
    bits, excesso, lemma_bits_intervalo, lemma_bits_limites, lemma_pow2_monotona, magnitude,
    meio_par, INFINITO, PASSO,
};
use crate::proporcao::{
    lemma_magnitude_escala, lemma_magnitude_monotona, lemma_meio_par_monotono, lemma_natural_finito,
    lemma_significando, lemma_zero,
};
use crate::reais::{inteiro, lemma_inteiro_positivo, um, Real};

verus! {

// ---- O valor de um número arredondado ----

/// O valor do número mais próximo de uma fração é o do significando arredondado, na sua escala.
pub proof fn lemma_valor_arredondado(num: nat, den: nat)
    requires
        den > 0,
        magnitude(num, den) < INFINITO,
    ensures
        inteiro(magnitude(num, den)) == meio_par(num, den * pow2(excesso(num, den))) * pow2(
            excesso(num, den),
        ),
{
    let k = excesso(num, den);
    let p = PASSO as nat;
    let s = meio_par(num, den * pow2(k));
    lemma_significando(num, den, k);
    lemma_meio_par_monotono(num, num, den * pow2(k));
    lemma2_to64();
    let m = k * p + s;
    assert(s <= 2 * p);
    if s == 2 * p {
        assert(m == (k + 2) * p) by (nonlinear_arith)
            requires
                m == k * p + s,
                s == 2 * p,
        ;
        lemma_fundamental_div_mod_converse(m as int, p as int, (k + 2) as int, 0);
        lemma_pow2_adds(1, k);
        assert(p * (2 * pow2(k)) == s * pow2(k)) by (nonlinear_arith)
            requires
                s == 2 * p,
        ;
    } else if s >= p {
        assert(m == (k + 1) * p + (s - p)) by (nonlinear_arith)
            requires
                m == k * p + s,
        ;
        lemma_fundamental_div_mod_converse(m as int, p as int, (k + 1) as int, s - p);
    } else {
        assert(k == 0);
        assert(0 * p == 0);
    }
}

/// Um valor da unidade que começa no natural `n` perde, ao ser guardado, os bits abaixo dos 53 de
/// maior peso de `n`.
pub proof fn lemma_posicao(n: nat, v: nat)
    requires
        0 < n < 0x20_0000_0000_0000,
        n * um() <= v < n * um() + um(),
    ensures
        1 <= bits(n) <= 53,
        n < pow2(bits(n)),
        excesso(v, 1) == bits(n) + 1021,
{
    lemma_bits_limites(n);
    let b = bits(n);
    lemma2_to64();
    lemma2_to64_rest();
    if b > 53 {
        lemma_pow2_monotona(53, (b - 1) as nat);
    }
    lemma_pow2_adds((b - 1) as nat, 1074);
    lemma_pow2_adds(b, 1074);
    lemma_pow2_pos(1074);
    assert(pow2((b - 1) as nat) * um() <= v < pow2(b) * um()) by (nonlinear_arith)
        requires
            n * um() <= v < n * um() + um(),
            pow2((b - 1) as nat) <= n,
            n + 1 <= pow2(b),
            um() > 0,
    ;
    lemma_bits_intervalo(v, b + 1074);
    assert(v / 1 == v);
}

/// Um valor a menos de meio bit guardado acima de um natural é arredondado para ele.
pub proof fn lemma_arredondado_ao_natural(n: nat, v: nat)
    requires
        0 < n < 0x20_0000_0000_0000,
        n * um() <= v < n * um() + um(),
        2 * v < 2 * (n * um()) + pow2(bits(n) + 1021),
    ensures
        meio_par(v, 1 * pow2(excesso(v, 1))) * pow2(excesso(v, 1)) == n * um(),
{
    lemma_posicao(n, v);
    let k = excesso(v, 1);
    let c: nat = (1074 - k) as nat;
    lemma_pow2_adds(c, k);
    lemma_pow2_pos(k);
    let q = n * pow2(c);
    assert(n * um() == q * pow2(k)) by (nonlinear_arith)
        requires
            um() == pow2(c) * pow2(k),
            q == n * pow2(c),
    ;
    assert(1 * pow2(k) == pow2(k));
    lemma_mais_perto(v, pow2(k), q);
}

/// Um natural de até 53 bits é guardado sem arredondamento.
pub proof fn lemma_natural_exato(n: nat)
    requires
        n < 0x20_0000_0000_0000,
    ensures
        Real::do_inteiro(n as int).finito(),
        !Real::do_inteiro(n as int).negativo(),
        inteiro(Real::do_inteiro(n as int).mag()) == n * um(),
{
    lemma_natural_finito(n as u64);
    if n == 0 {
        lemma_zero();
        assert(0 * um() == 0);
        assert(0 * pow2(0) == 0);
    } else {
        lemma_pow2_pos(1074);
        lemma_pow2_pos(bits(n) + 1021);
        lemma_arredondado_ao_natural(n, n * um());
        lemma_valor_arredondado(n * um(), 1);
    }
}

/// O produto de naturais que cabe em 53 bits é exato.
pub proof fn lemma_produto_exato(a: nat, b: nat)
    requires
        a < 0x20_0000_0000_0000,
        b < 0x20_0000_0000_0000,
        a * b < 0x20_0000_0000_0000,
    ensures
        Real::do_inteiro(a as int).produto(Real::do_inteiro(b as int)) == Real::do_inteiro(
            (a * b) as int,
        ),
{
    lemma_natural_exato(a);
    lemma_natural_exato(b);
    lemma_pow2_pos(1074);
    let u = um();
    assert((a * u) * (b * u) == ((a * b) * u) * u) by (nonlinear_arith);
    assert(1 * u == u);
    lemma_magnitude_escala((a * b) * u, 1, u);
}

/// Um valor a menos de meia unidade de um inteiro arredonda para ele.
pub proof fn lemma_mais_perto(x: nat, den: nat, q: nat)
    requires
        den > 0,
        2 * x < 2 * (q * den) + den,
        2 * (q * den) < 2 * x + den,
    ensures
        meio_par(x, den) == q,
{
    if x >= q * den {
        let r = x - q * den;
        lemma_fundamental_div_mod_converse(x as int, den as int, q as int, r);
    } else {
        let r = x - (q - 1) * den;
        assert((q - 1) * den == q * den - den) by (nonlinear_arith);
        lemma_fundamental_div_mod_converse(x as int, den as int, q - 1, r);
    }
}

// ---- O erro de uma conta ----

/// Se `x` difere de `y` em no máximo uma parte em `t`.
pub open spec fn perto(x: int, y: int, t: int) -> bool {
    -y <= (x - y) * t <= y
}

/// Abaixo de 2^2000 unidades o número mais próximo é finito.
pub proof fn lemma_finito(num: nat, den: nat)
    requires
        den > 0,
        num < den * pow2(2000),
    ensures
        magnitude(num, den) < INFINITO,
{
    let k = excesso(num, den);
    let q = num as int / den as int;
    let r = num as int % den as int;
    lemma_fundamental_div_mod(num as int, den as int);
    lemma_pow2_pos(2000);
    assert(0 <= q < pow2(2000)) by (nonlinear_arith)
        requires
            num == den * q + r,
            0 <= r < den,
            num < den * pow2(2000),
    ;
    if q > 0 {
        lemma_bits_limites(q as nat);
        if bits(q as nat) > 2000 {
            lemma_pow2_monotona(2000, (bits(q as nat) - 1) as nat);
        }
    }
    lemma_significando(num, den, k);
    lemma_meio_par_monotono(num, num, den * pow2(k));
    assert(k * PASSO <= 1947 * 0x10_0000_0000_0000);
}

/// O arredondamento ao inteiro mais próximo erra no máximo meia unidade.
pub proof fn lemma_meia_unidade(num: nat, den: nat)
    requires
        den > 0,
    ensures
        -(den as int) <= 2 * (meio_par(num, den) * den - num) <= den,
{
    let q = num / den;
    let r = num % den;
    let s = meio_par(num, den);
    lemma_fundamental_div_mod(num as int, den as int);
    assert(den * q == q * den) by (nonlinear_arith);
    assert((q + 1) * den == q * den + den) by (nonlinear_arith);
}

/// O número mais próximo de uma fração a partir do primeiro significando cheio erra no máximo uma
/// parte em 2^53.
pub proof fn lemma_erro(num: nat, den: nat)
    requires
        den > 0,
        num >= den * 0x10_0000_0000_0000,
        magnitude(num, den) < INFINITO,
    ensures
        perto(
            (inteiro(magnitude(num, den)) * den) as int,
            num as int,
            0x20_0000_0000_0000,
        ),
{
    let k = excesso(num, den);
    let d = den * pow2(k);
    let s = meio_par(num, d);
    lemma_pow2_pos(k);
    lemma_significando(num, den, k);
    lemma_valor_arredondado(num, den);
    lemma_meia_unidade(num, d);
    lemma_fundamental_div_mod(num as int, d as int);
    assert(num as int / d as int >= 0x10_0000_0000_0000) by {
        if k == 0 {
            lemma2_to64();
            assert(den * 1 == den);
            lemma_div_is_ordered(
                (den * 0x10_0000_0000_0000) as int,
                num as int,
                den as int,
            );
            lemma_fundamental_div_mod_converse(
                (den * 0x10_0000_0000_0000) as int,
                den as int,
                0x10_0000_0000_0000,
                0,
            );
        }
    }
    let q = num as int / d as int;
    assert(num >= d * 0x10_0000_0000_0000) by (nonlinear_arith)
        requires
            num == d * q + num as int % d as int,
            num as int % d as int >= 0,
            q >= 0x10_0000_0000_0000,
            d > 0,
    ;
    let r = inteiro(magnitude(num, den));
    assert(r * den == s * d) by (nonlinear_arith)
        requires
            r == s * pow2(k),
            d == den * pow2(k),
    ;
}

/// Guardar um inteiro erra no máximo uma parte em 2^53.
pub proof fn lemma_erro_do_inteiro(v: nat)
    requires
        magnitude(v, 1) < INFINITO,
    ensures
        perto(inteiro(magnitude(v, 1)) as int, v as int, 0x20_0000_0000_0000),
{
    if v >= 0x10_0000_0000_0000 {
        lemma_erro(v, 1);
        assert(inteiro(magnitude(v, 1)) * 1 == inteiro(magnitude(v, 1)));
    } else {
        lemma2_to64();
        lemma2_to64_rest();
        assert(v / 1 == v);
        if v > 0 {
            lemma_bits_limites(v);
            if bits(v) > 53 {
                lemma_pow2_monotona(53, (bits(v) - 1) as nat);
            }
        }
        assert(excesso(v, 1) == 0);
        assert(1 * pow2(0) == 1);
        assert(v % 1 == 0);
        lemma_valor_arredondado(v, 1);
        assert(v * 1 == v);
    }
}

/// O quociente de dois números positivos é o mais próximo: erra no máximo uma parte em 2^53.
pub proof fn lei_quociente_proximo(a: Real, b: Real)
    requires
        a.finito(),
        b.finito(),
        !a.negativo(),
        !b.negativo(),
        b.mag() > 0,
        inteiro(a.mag()) * um() >= inteiro(b.mag()) * 0x10_0000_0000_0000,
        inteiro(a.mag()) * um() < inteiro(b.mag()) * pow2(2000),
    ensures
        a.quociente(b).finito(),
        !a.quociente(b).negativo(),
        perto(
            (inteiro(a.quociente(b).mag()) * inteiro(b.mag())) as int,
            (inteiro(a.mag()) * um()) as int,
            0x20_0000_0000_0000,
        ),
{
    lemma_inteiro_positivo(b.mag());
    let num = inteiro(a.mag()) * um();
    let den = inteiro(b.mag());
    lemma_finito(num, den);
    lemma_erro(num, den);
}

/// O produto de dois números positivos é o mais próximo: erra no máximo uma parte em 2^53.
pub proof fn lei_produto_proximo(a: Real, b: Real)
    requires
        a.finito(),
        b.finito(),
        !a.negativo(),
        !b.negativo(),
        inteiro(a.mag()) * inteiro(b.mag()) >= um() * 0x10_0000_0000_0000,
        inteiro(a.mag()) * inteiro(b.mag()) < um() * pow2(2000),
    ensures
        a.produto(b).finito(),
        !a.produto(b).negativo(),
        perto(
            (inteiro(a.produto(b).mag()) * um()) as int,
            (inteiro(a.mag()) * inteiro(b.mag())) as int,
            0x20_0000_0000_0000,
        ),
{
    lemma_pow2_pos(1074);
    let num = inteiro(a.mag()) * inteiro(b.mag());
    lemma_finito(num, um());
    lemma_erro(num, um());
}

/// A soma de dois números não negativos é o mais próximo: erra no máximo uma parte em 2^53.
pub proof fn lei_soma_proxima(a: Real, b: Real)
    requires
        a.finito(),
        b.finito(),
        !a.negativo(),
        !b.negativo(),
        inteiro(a.mag()) + inteiro(b.mag()) < pow2(2000),
    ensures
        a.soma(b).finito(),
        !a.soma(b).negativo(),
        perto(
            inteiro(a.soma(b).mag()) as int,
            (inteiro(a.mag()) + inteiro(b.mag())) as int,
            0x20_0000_0000_0000,
        ),
{
    let v = inteiro(a.mag()) + inteiro(b.mag());
    assert(1 * pow2(2000) == pow2(2000));
    lemma_finito(v, 1);
    lemma_erro_do_inteiro(v);
    if v == 0 {
        assert(0 * pow2(0) == 0);
    }
}

/// A soma de dois naturais que cabe em 53 bits é exata.
pub proof fn lei_soma_exata(a: nat, b: nat)
    requires
        a + b < 0x20_0000_0000_0000,
    ensures
        Real::do_inteiro(a as int).soma(Real::do_inteiro(b as int)) == Real::do_inteiro(
            (a + b) as int,
        ),
{
    lemma_natural_exato(a);
    lemma_natural_exato(b);
    assert(a * um() + b * um() == (a + b) * um()) by (nonlinear_arith);
    lemma_zero();
    if a + b == 0 {
        assert(0 * um() == 0);
    } else {
        lemma_pow2_pos(1074);
        assert((a + b) * um() > 0) by (nonlinear_arith)
            requires
                a + b > 0,
                um() > 0,
        ;
    }
}

/// A ordem dos números é a dos naturais.
pub proof fn lei_ordem_dos_naturais(a: nat, b: nat)
    requires
        a < 0x20_0000_0000_0000,
        b < 0x20_0000_0000_0000,
    ensures
        Real::do_inteiro(a as int).menor(Real::do_inteiro(b as int)) <==> a < b,
        Real::do_inteiro(a as int).menor_ou_igual(Real::do_inteiro(b as int)) <==> a <= b,
{
    let u = um();
    lemma_natural_exato(a);
    lemma_natural_exato(b);
    lemma_pow2_pos(1074);
    let x = Real::do_inteiro(a as int).mag();
    let y = Real::do_inteiro(b as int).mag();
    if a <= b {
        assert(a * u <= b * u) by (nonlinear_arith)
            requires
                a <= b,
        ;
        lemma_magnitude_monotona(a * u, b * u, 1);
    } else {
        assert(b * u <= a * u) by (nonlinear_arith)
            requires
                b <= a,
        ;
        lemma_magnitude_monotona(b * u, a * u, 1);
    }
    if x == y {
        assert(a == b) by (nonlinear_arith)
            requires
                a * u == b * u,
                u > 0,
        ;
    }
}

} // verus!
