//! O que as conversões e comparações dos números garantem.

use vstd::arithmetic::power2::lemma_pow2_pos;
use vstd::prelude::*;

use crate::arredonda::INFINITO;
use crate::reais::{inteiro, lemma_inteiro_ordenado, lemma_inteiro_positivo, um, Real};

verus! {

/// O arredondamento dá o natural mais próximo, e o de cima quando o número está no meio.
pub proof fn lei_arredondado(x: Real)
    requires
        x.finito(),
        !x.negativo(),
        inteiro(x.mag()) + um() <= u64::MAX * um(),
    ensures
        -(um() as int) < 2 * (x.arredondado_u64() * um() - inteiro(x.mag())) <= um(),
{
    let u = um() as int;
    let v = inteiro(x.mag()) as int;
    lemma_pow2_pos(1074);
    let n = (2 * v + u) / (2 * u);
    assert(-u < 2 * (n * u - v) <= u && n <= u64::MAX) by (nonlinear_arith)
        requires
            n == (2 * v + u) / (2 * u),
            u > 0,
            v >= 0,
            v + u <= u64::MAX * u,
    ;
}

/// A parte inteira é o maior natural que não passa do número.
pub proof fn lei_truncado(x: Real)
    requires
        x.finito(),
        !x.negativo(),
        inteiro(x.mag()) < u64::MAX * um(),
    ensures
        x.truncado_u64() * um() <= inteiro(x.mag()) < (x.truncado_u64() + 1) * um(),
        x.truncado_i128() == x.truncado_u64(),
        x.oposto().truncado_i128() == -(x.truncado_u64() as int) || x.mag() == 0,
{
    let u = um() as int;
    let v = inteiro(x.mag()) as int;
    lemma_pow2_pos(1074);
    let n = v / u;
    assert(n * u <= v < (n + 1) * u && 0 <= n <= u64::MAX) by (nonlinear_arith)
        requires
            n == v / u,
            u > 0,
            v >= 0,
            v < u64::MAX * u,
    ;
}

/// O que não cabe satura: zero abaixo, o maior natural acima; o que não é número é zero.
pub proof fn lei_saturacao(x: Real)
    ensures
        x.nan() || x.negativo() ==> x.truncado_u64() == 0 && x.arredondado_u64() == 0,
        x.infinito() && !x.negativo() ==> x.truncado_u64() == u64::MAX && x.arredondado_u64()
            == u64::MAX,
        x.nan() ==> x.truncado_i128() == 0,
{
}

/// O maior de dois números é um deles e não é menor que nenhum; um que não é número cede ao outro.
pub proof fn lei_maior_entre(a: Real, b: Real)
    ensures
        a.maior_entre(b) == a || a.maior_entre(b) == b,
        !a.nan() && !b.nan() ==> a.menor_ou_igual(a.maior_entre(b)) && b.menor_ou_igual(
            a.maior_entre(b),
        ),
        a.nan() ==> a.maior_entre(b) == b,
        b.nan() ==> a.maior_entre(b) == a || a.nan(),
{
}

/// A ordem dos números finitos acompanha a dos seus valores.
pub proof fn lei_ordem_dos_valores(a: Real, b: Real)
    requires
        a.finito(),
        b.finito(),
    ensures
        a.valor() < b.valor() ==> a.menor(b) && !b.menor_ou_igual(a),
        a.menor_ou_igual(b) ==> a.valor() <= b.valor(),
        a.menor_ou_igual(b) || b.menor_ou_igual(a),
{
    if a.mag() <= b.mag() {
        lemma_inteiro_ordenado(a.mag(), b.mag());
    }
    if b.mag() <= a.mag() {
        lemma_inteiro_ordenado(b.mag(), a.mag());
    }
    lemma_inteiro_positivo(a.mag());
    lemma_inteiro_positivo(b.mag());
}

/// Um número menos ele mesmo é zero; o oposto e o absoluto só mudam o sinal.
pub proof fn lei_oposto(x: Real)
    requires
        x.finito(),
    ensures
        x.diferenca(x).mag() == 0,
        x.oposto().mag() == x.mag(),
        x.oposto().negativo() == !x.negativo(),
        x.oposto().oposto() == x,
        x.absoluto().mag() == x.mag(),
        !x.absoluto().negativo(),
{
    assert(x.mag() < INFINITO);
    assert(x.oposto().valor() == -x.valor());
}

} // verus!
