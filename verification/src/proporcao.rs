//! A repartição da taxa por peso conserva a ordem dos pesos.

use vstd::arithmetic::div_mod::{
    lemma_div_is_ordered, lemma_fundamental_div_mod, lemma_fundamental_div_mod_converse,
};
use vstd::arithmetic::power2::{
    lemma2_to64, lemma2_to64_rest, lemma_pow2_adds, lemma_pow2_pos, pow2,
};
use vstd::prelude::*;

use crate::arredonda::{
    bits, excesso, lemma_bits_limites, lemma_magnitude_nula, lemma_meio_par_escala,
    lemma_pow2_monotona, magnitude, meio_par, INFINITO, PASSO,
};
use crate::config::{soma_dos_pesos, Config};
use crate::reais::{
    com_sinal, inteiro, lemma_inteiro_ordenado, lemma_inteiro_positivo, um, Real,
};

verus! {

proof fn lemma_bits_monotona(a: nat, b: nat)
    requires
        a <= b,
    ensures
        bits(a) <= bits(b),
    decreases b,
{
    if a > 0 {
        lemma_bits_monotona(a / 2, b / 2);
    }
}

/// Arredondar conserva a ordem.
pub proof fn lemma_meio_par_monotono(a: nat, b: nat, den: nat)
    requires
        a <= b,
        den > 0,
    ensures
        meio_par(a, den) <= meio_par(b, den),
        a / den <= meio_par(a, den) <= a / den + 1,
{
    let q = a as int / den as int;
    let r = a as int % den as int;
    let s = b as int / den as int;
    let t = b as int % den as int;
    lemma_fundamental_div_mod(a as int, den as int);
    lemma_fundamental_div_mod(b as int, den as int);
    lemma_div_is_ordered(a as int, b as int, den as int);
    if q == s {
        assert(r <= t) by (nonlinear_arith)
            requires
                a == den * q + r,
                b == den * s + t,
                q == s,
                a <= b,
        ;
    }
}

/// O quociente por `den * 2^k` fica entre potências de dois, conforme os bits de `num / den`.
pub proof fn lemma_significando(num: nat, den: nat, k: nat)
    requires
        den > 0,
        bits(num / den) <= 53 + k,
    ensures
        den * pow2(k) > 0,
        num / (den * pow2(k)) < 0x20_0000_0000_0000,
        bits(num / den) == 53 + k ==> num / (den * pow2(k)) >= 0x10_0000_0000_0000,
{
    let p = pow2(k);
    lemma_pow2_pos(k);
    assert(den * p > 0) by (nonlinear_arith)
        requires
            den > 0,
            p > 0,
    ;
    let q = num as int / den as int;
    let r = num as int % den as int;
    lemma_fundamental_div_mod(num as int, den as int);
    lemma2_to64();
    lemma2_to64_rest();
    let alto: int = 0x20_0000_0000_0000;
    let baixo: int = 0x10_0000_0000_0000;
    lemma_pow2_adds(53, k);
    lemma_pow2_adds(52, k);
    lemma_fundamental_div_mod(num as int, (den * p) as int);
    let s = num as int / (den * p) as int;
    let t = num as int % (den * p) as int;
    if q > 0 {
        lemma_bits_limites(q as nat);
        lemma_pow2_monotona(bits(q as nat), 53 + k);
    }
    assert(q < alto * p) by {
        lemma_pow2_pos(53 + k);
    }
    if s >= alto {
        assert(num >= den * (alto * p)) by (nonlinear_arith)
            requires
                num == (den * p) * s + t,
                t >= 0,
                s >= alto,
                den > 0,
                p > 0,
        ;
        assert(num < den * (alto * p)) by (nonlinear_arith)
            requires
                num == den * q + r,
                r < den,
                q < alto * p,
                den > 0,
        ;
    }
    if bits(num / den) == 53 + k && s < baixo {
        assert(q >= baixo * p);
        assert(num >= den * (baixo * p)) by (nonlinear_arith)
            requires
                num == den * q + r,
                r >= 0,
                q >= baixo * p,
                den > 0,
        ;
        assert(num < den * (baixo * p)) by (nonlinear_arith)
            requires
                num == (den * p) * s + t,
                t < den * p,
                s < baixo,
                den > 0,
                p > 0,
        ;
    }
}

/// A magnitude cresce com a fração.
pub proof fn lemma_magnitude_monotona(a: nat, b: nat, den: nat)
    requires
        a <= b,
        den > 0,
    ensures
        magnitude(a, den) <= magnitude(b, den),
{
    lemma_div_is_ordered(a as int, b as int, den as int);
    lemma_bits_monotona(a / den, b / den);
    let j = excesso(a, den);
    let k = excesso(b, den);
    lemma_significando(a, den, j);
    lemma_significando(b, den, k);
    lemma_meio_par_monotono(a, a, den * pow2(j));
    lemma_meio_par_monotono(b, b, den * pow2(k));
    if j == k {
        lemma_meio_par_monotono(a, b, den * pow2(j));
    }
}

/// O natural mais próximo cresce com a magnitude.
proof fn lemma_arredondado_monotono(a: nat, b: nat)
    requires
        a <= b <= INFINITO,
    ensures
        com_sinal(false, a).arredondado_u64() <= com_sinal(false, b).arredondado_u64(),
{
    lemma_inteiro_ordenado(a, b);
    lemma_pow2_pos(1074);
    lemma_div_is_ordered(
        (2 * inteiro(a) + um()) as int,
        (2 * inteiro(b) + um()) as int,
        (2 * um()) as int,
    );
}

/// O produto por um número fixo, arredondado, cresce com o outro fator.
proof fn lemma_parte_monotona(a: Real, x: nat, y: nat)
    requires
        !a.negativo(),
        a.finito(),
        x <= y <= INFINITO,
    ensures
        a.produto(com_sinal(false, x)).arredondado_u64() <= a.produto(
            com_sinal(false, y),
        ).arredondado_u64(),
{
    lemma_pow2_pos(1074);
    if y < INFINITO {
        lemma_inteiro_ordenado(x, y);
        assert(inteiro(a.mag()) * inteiro(x) <= inteiro(a.mag()) * inteiro(y)) by (nonlinear_arith)
            requires
                inteiro(x) <= inteiro(y),
        ;
        let m = magnitude(inteiro(a.mag()) * inteiro(x), um());
        let n = magnitude(inteiro(a.mag()) * inteiro(y), um());
        lemma_magnitude_monotona(inteiro(a.mag()) * inteiro(x), inteiro(a.mag()) * inteiro(y), um());
        lemma_arredondado_monotono(m, n);
    } else if a.mag() == 0 && x < INFINITO {
        lemma_produto_nulo(a, com_sinal(false, x));
    }
}

/// Um produto nulo é arredondado para zero.
proof fn lemma_produto_nulo(a: Real, b: Real)
    requires
        !a.negativo(),
        !b.negativo(),
        a.finito(),
        b.finito(),
        a.mag() == 0 || b.mag() == 0,
    ensures
        a.produto(b).arredondado_u64() == 0,
{
    lemma_pow2_pos(1074);
    assert(inteiro(0) == 0) by {
        assert(0 * pow2(0) == 0);
    }
    assert(inteiro(a.mag()) * inteiro(b.mag()) == 0) by (nonlinear_arith)
        requires
            inteiro(a.mag()) == 0 || inteiro(b.mag()) == 0,
    ;
    lemma_magnitude_nula(0, um());
    assert(a.produto(b) == com_sinal(false, 0));
    lemma_fundamental_div_mod_converse(um() as int, (2 * um()) as int, 0, um() as int);
}

/// O zero.
pub proof fn lemma_zero()
    ensures
        Real::do_inteiro(0) == com_sinal(false, 0),
{
    assert(0 * um() == 0);
    lemma_magnitude_nula(0, 1);
}

/// Um natural de 64 bits é um número finito e não negativo.
pub proof fn lemma_natural_finito(n: u64)
    ensures
        Real::do_inteiro(n as int).finito(),
        !Real::do_inteiro(n as int).negativo(),
{
    let v = n as nat * um();
    lemma2_to64();
    lemma_pow2_pos(1074);
    lemma_pow2_adds(64, 1074);
    assert(v < pow2(64) * pow2(1074)) by (nonlinear_arith)
        requires
            v == n as nat * um(),
            n < pow2(64),
            um() == pow2(1074),
            um() > 0,
    ;
    let k = excesso(v, 1);
    assert(v / 1 == v);
    if v > 0 {
        lemma_bits_limites(v);
        if bits(v) > 1138 {
            lemma_pow2_monotona(1138, (bits(v) - 1) as nat);
        }
    }
    assert(k <= 1085);
    lemma_significando(v, 1, k);
    lemma_meio_par_monotono(v, v, 1 * pow2(k));
    assert(k * PASSO <= 1085 * 0x10_0000_0000_0000);
}

/// Um natural positivo é um número positivo.
pub proof fn lemma_natural_positivo(n: u64)
    requires
        n > 0,
    ensures
        Real::do_inteiro(n as int).mag() > 0,
        inteiro(Real::do_inteiro(n as int).mag()) > 0,
{
    lemma_natural_finito(n);
    let v = n as nat * um();
    lemma_pow2_pos(1074);
    assert(v > 0) by (nonlinear_arith)
        requires
            v == n as nat * um(),
            n > 0,
            um() > 0,
    ;
    assert(v / 1 == v);
    let k = excesso(v, 1);
    lemma_significando(v, 1, k);
    lemma_meio_par_monotono(v, v, 1 * pow2(k));
    if k == 0 {
        lemma2_to64();
        assert(1 * pow2(0) == 1);
    }
    lemma_inteiro_positivo(Real::do_inteiro(n as int).mag());
}

/// Multiplicar os dois termos da fração não muda a magnitude.
pub proof fn lemma_magnitude_escala(num: nat, den: nat, c: nat)
    requires
        den > 0,
        c > 0,
    ensures
        magnitude(num * c, den * c) == magnitude(num, den),
{
    lemma_meio_par_escala(num, den, c);
    let k = excesso(num, den);
    let p = pow2(k);
    lemma_pow2_pos(k);
    assert(den * p > 0) by (nonlinear_arith)
        requires
            den > 0,
            p > 0,
    ;
    lemma_meio_par_escala(num, den * p, c);
    assert(den * p * c == den * c * p) by (nonlinear_arith);
}

/// Entre geradores que repartem a taxa por peso, o de peso maior não recebe taxa menor.
pub proof fn lei_taxas_na_ordem_dos_pesos(cfg: Config, i: int, j: int)
    requires
        0 <= i < cfg.plano_resolvido().len(),
        0 <= j < cfg.plano_resolvido().len(),
        cfg.geradores@[i].taxa is None,
        cfg.geradores@[j].taxa is None,
        Real::do_inteiro(0).menor(cfg.geradores@[i].peso),
        cfg.geradores@[i].peso.menor_ou_igual(cfg.geradores@[j].peso),
    ensures
        cfg.plano_resolvido()[i].taxa <= cfg.plano_resolvido()[j].taxa,
{
    let gs = cfg.geradores@;
    let soma = soma_dos_pesos(gs, gs.len() as int);
    let p = gs[i].peso;
    let q = gs[j].peso;
    let total = Real::do_inteiro(cfg.teste.taxa as int);
    lemma_zero();
    lemma_natural_finito(cfg.teste.taxa);
    if soma.menor_ou_igual(Real::do_inteiro(0)) {
    } else if soma.nan() {
    } else if soma.infinito() {
        lemma_produto_nulo(total, com_sinal(false, 0));
    } else {
        assert(soma.mag() > 0 && !soma.negativo());
        lemma_inteiro_positivo(soma.mag());
        if q.infinito() {
            if !p.infinito() {
                let m = magnitude(inteiro(p.mag()) * um(), inteiro(soma.mag()));
                lemma_parte_monotona(total, m, INFINITO as nat);
            }
        } else {
            lemma_inteiro_ordenado(p.mag(), q.mag());
            assert(inteiro(p.mag()) * um() <= inteiro(q.mag()) * um()) by (nonlinear_arith)
                requires
                    inteiro(p.mag()) <= inteiro(q.mag()),
            ;
            let m = magnitude(inteiro(p.mag()) * um(), inteiro(soma.mag()));
            let n = magnitude(inteiro(q.mag()) * um(), inteiro(soma.mag()));
            lemma_magnitude_monotona(
                inteiro(p.mag()) * um(),
                inteiro(q.mag()) * um(),
                inteiro(soma.mag()),
            );
            lemma_parte_monotona(total, m, n);
        }
    }
}

} // verus!
