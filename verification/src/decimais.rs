//! O que os decimais escritos garantem: lidos de volta dão o decimal mais próximo do número.

use vstd::arithmetic::power2::lemma_pow2_pos;
use vstd::prelude::*;

use crate::arredonda::meio_par;
use crate::decimal::{algarismo, com_ponto, dez, digitos, lemma_dez_positivo, preenchidos};
use crate::inteiros::{lei_numeral_lido, so_algarismos};
use crate::leitura::natural_de;
use crate::numerais::escrito;
use crate::precisao::lemma_meia_unidade;
use crate::reais::{inteiro, um, Real};

verus! {

/// O natural que se lê de um decimal com `casas` casas, sem o separador.
pub open spec fn decimal_lido(t: Seq<char>, casas: nat) -> nat {
    if casas == 0 {
        natural_de(t)
    } else {
        natural_de(t.take(t.len() - casas - 1) + t.skip(t.len() - casas))
    }
}

pub proof fn lemma_natural_junto(a: Seq<char>, b: Seq<char>)
    ensures
        natural_de(a + b) == natural_de(a) * dez(b.len()) + natural_de(b),
    decreases b.len(),
{
    if b.len() == 0 {
        assert(a + b =~= a);
        assert(natural_de(a) * 1 == natural_de(a));
    } else {
        let s = a + b;
        let c = b.drop_last();
        assert(s.drop_last() =~= a + c);
        lemma_natural_junto(a, c);
        let n = natural_de(a);
        let p = dez(c.len());
        assert(10 * (n * p) == n * (10 * p)) by (nonlinear_arith);
    }
}

pub proof fn lemma_preenchidos(n: nat, w: nat)
    requires
        n < dez(w),
    ensures
        preenchidos(n, w).len() == w,
        natural_de(preenchidos(n, w)) == n,
        forall|i: int| 0 <= i < w ==> '0' <= #[trigger] preenchidos(n, w)[i] <= '9',
    decreases w,
{
    if w > 0 {
        let s = preenchidos(n, w);
        lemma_preenchidos(n / 10, (w - 1) as nat);
        assert(s.drop_last() =~= preenchidos(n / 10, (w - 1) as nat));
        assert(s.last() == algarismo(n % 10));
    }
}

/// Um decimal com casas tem o ponto antes delas, e sem ele é o numeral do número.
pub proof fn lei_decimal_com_ponto(d: nat, casas: nat)
    ensures
        ({
            let t = com_ponto(d, casas);
            &&& decimal_lido(t, casas) == d
            &&& casas > 0 ==> t.len() > casas + 1 && t[t.len() - casas - 1] == '.'
            &&& casas == 0 ==> so_algarismos(t)
            &&& casas > 0 ==> so_algarismos(t.take(t.len() - casas - 1)) && so_algarismos(
                t.skip(t.len() - casas),
            )
        }),
{
    if casas == 0 {
        lei_numeral_lido(d);
    } else {
        let t = com_ponto(d, casas);
        let p = dez(casas);
        lemma_dez_positivo(casas);
        let q = d / p;
        let r = d % p;
        let a = digitos(q);
        let b = preenchidos(r, casas);
        lei_numeral_lido(q);
        lemma_preenchidos(r, casas);
        lemma_natural_junto(a, b);
        assert(t.take(t.len() - casas - 1) =~= a);
        assert(t.skip(t.len() - casas) =~= b);
        assert(q * p + r == d) by (nonlinear_arith)
            requires
                q == d / p,
                r == d % p,
                p > 0,
        ;
    }
}

/// O decimal escrito de um número é o mais próximo dele, e de dois igualmente próximos o par.
pub proof fn lei_decimal_mais_proximo(x: Real, casas: nat)
    requires
        x.finito(),
        !x.negativo(),
    ensures
        ({
            let t = escrito(x, casas, false);
            let d = decimal_lido(t, casas);
            let erro = 2 * (d * um() - inteiro(x.mag()) * dez(casas));
            &&& -(um() as int) <= erro <= um()
            &&& erro == um() || erro == -(um() as int) ==> d % 2 == 0
            &&& casas > 0 ==> t.len() > casas + 1 && t[t.len() - casas - 1] == '.'
            &&& casas == 0 ==> so_algarismos(t)
            &&& casas > 0 ==> so_algarismos(t.take(t.len() - casas - 1)) && so_algarismos(
                t.skip(t.len() - casas),
            )
        }),
{
    let n = inteiro(x.mag()) * dez(casas);
    let u = um();
    let d = meio_par(n, u);
    lemma_pow2_pos(1074);
    lei_decimal_com_ponto(d, casas);
    assert(escrito(x, casas, false) =~= com_ponto(d, casas));
    lemma_meia_unidade(n, u);
    lemma_empate(n, u);
}

proof fn lemma_empate(n: nat, u: nat)
    requires
        u > 0,
    ensures
        2 * (meio_par(n, u) * u - n) == u || 2 * (meio_par(n, u) * u - n) == -(u as int)
            ==> meio_par(n, u) % 2 == 0,
{
    let q = n / u;
    let r = n % u;
    assert(n == q * u + r && 0 <= r < u) by (nonlinear_arith)
        requires
            q == n / u,
            r == n % u,
            u > 0,
    ;
    assert((q + 1) * u == q * u + u) by (nonlinear_arith);
}

/// O sinal vem antes: o de menos nos negativos e, quando se pede, o de mais nos outros.
pub proof fn lei_sinal_do_decimal(x: Real, casas: nat)
    requires
        !x.nan(),
    ensures
        x.negativo() ==> escrito(x, casas, false) == seq!['-'] + escrito(x.absoluto(), casas, false),
        x.negativo() ==> escrito(x, casas, true) == escrito(x, casas, false),
        !x.negativo() ==> escrito(x, casas, true) == seq!['+'] + escrito(x, casas, false),
        x.infinito() && !x.negativo() ==> escrito(x, casas, false) == "inf"@,
{
    assert(Seq::<char>::empty() + "inf"@ =~= "inf"@);
    let c = com_ponto(meio_par(inteiro(x.mag()) * dez(casas), um()), casas);
    assert(Seq::<char>::empty() + c =~= c);
}

} // verus!
