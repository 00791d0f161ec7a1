//! Numerais decimais dos números de ponto flutuante: escrita com casas fixas.

use vstd::arithmetic::power2::{lemma_pow2_adds, lemma_pow2_pos, lemma_pow2_unfold, lemma2_to64, pow2};
use vstd::prelude::*;

use crate::arredonda::{lemma_meio_par_escala, meio_par, INFINITO};
use crate::decimal::{
    algarismos, caractere, com_ponto, de_cima, dez, digitos, incrementar, lemma_de_cima,
    lemma_dez_positivo, lemma_dez_soma, lemma_digitos_preenchidos, lemma_valor_divisao,
    lemma_valor_empilhado, lemma_valor_limite, lemma_valor_partido, multiplicar, preenchidos, valor, validos,
};
use crate::reais::{inteiro, partes, um, Real};

verus! {

/// O sinal escrito antes de um número.
pub open spec fn sinal_escrito(x: Real, mais: bool) -> Seq<char> {
    if x.negativo() {
        seq!['-']
    } else if mais {
        seq!['+']
    } else {
        Seq::empty()
    }
}

/// O numeral de um número com `casas` algarismos após o ponto: o decimal mais
/// próximo, com empate para o par. Com `mais`, um positivo leva o sinal `+`.
pub open spec fn escrito(x: Real, casas: nat, mais: bool) -> Seq<char> {
    if x.nan() {
        "NaN"@
    } else if x.infinito() {
        sinal_escrito(x, mais) + "inf"@
    } else {
        sinal_escrito(x, mais) + com_ponto(meio_par(inteiro(x.mag()) * dez(casas), um()), casas)
    }
}

/// 5^n.
pub open spec fn cinco(n: nat) -> nat
    decreases n,
{
    if n == 0 {
        1
    } else {
        5 * cinco((n - 1) as nat)
    }
}

proof fn lemma_dez_fatores(n: nat)
    ensures
        dez(n) == pow2(n) * cinco(n),
    decreases n,
{
    if n == 0 {
        lemma2_to64();
    } else {
        lemma_dez_fatores((n - 1) as nat);
        lemma_pow2_unfold(n);
        let a = pow2((n - 1) as nat);
        let b = cinco((n - 1) as nat);
        assert(10 * (a * b) == (2 * a) * (5 * b)) by (nonlinear_arith);
    }
}

/// O valor exato de uma magnitude finita, como `ds / 10^k`.
fn expandir(mag: u64) -> (r: (Vec<u8>, usize))
    requires
        mag < INFINITO,
    ensures
        validos(r.0@),
        inteiro(mag as nat) * dez(r.1 as nat) == valor(r.0@) * um(),
        r.1 <= 1074,
{
    let (s, e) = partes(mag);
    let mut ds = algarismos(s as u128);
    let t = e - 1074;
    let ghost v = inteiro(mag as nat);
    if t >= 0 {
        let mut i: i32 = 0;
        proof {
            lemma2_to64();
            assert(s * 1 == s);
        }
        while i < t
            invariant
                0 <= i <= t,
                validos(ds@),
                valor(ds@) == s * pow2(i as nat),
            decreases t - i,
        {
            multiplicar(&mut ds, 2);
            proof {
                lemma_pow2_unfold((i + 1) as nat);
                assert(2 * (s * pow2(i as nat)) == s * (2 * pow2(i as nat))) by (nonlinear_arith);
            }
            i = i + 1;
        }
        proof {
            lemma_pow2_adds(t as nat, 1074);
            assert(v * 1 == (s * pow2(t as nat)) * um()) by (nonlinear_arith)
                requires
                    v == s * pow2(e as nat),
                    pow2(t as nat) * um() == pow2(e as nat),
            ;
        }
        (ds, 0)
    } else {
        let k: i32 = -t;
        let mut i: i32 = 0;
        proof {
            assert(s * 1 == s);
        }
        while i < k
            invariant
                0 <= i <= k,
                validos(ds@),
                valor(ds@) == s * cinco(i as nat),
            decreases k - i,
        {
            multiplicar(&mut ds, 5);
            proof {
                assert(5 * (s * cinco(i as nat)) == s * (5 * cinco(i as nat)))
                    by (nonlinear_arith);
            }
            i = i + 1;
        }
        proof {
            lemma_pow2_adds(e as nat, k as nat);
            lemma_dez_fatores(k as nat);
            assert(v * dez(k as nat) == (s * cinco(k as nat)) * um()) by (nonlinear_arith)
                requires
                    v == s * pow2(e as nat),
                    dez(k as nat) == pow2(k as nat) * cinco(k as nat),
                    pow2(e as nat) * pow2(k as nat) == um(),
            ;
        }
        (ds, k as usize)
    }
}

/// `n` zeros.
fn zeros(n: usize) -> (r: Vec<u8>)
    ensures
        validos(r@),
        r@.len() == n,
        valor(r@) == 0,
{
    let mut r: Vec<u8> = Vec::new();
    while r.len() < n
        invariant
            r@.len() <= n,
            validos(r@),
            valor(r@) == 0,
        decreases n - r@.len(),
    {
        proof {
            lemma_valor_empilhado(r@, 0);
            assert(dez(r@.len()) * 0 == 0);
        }
        r.push(0);
    }
    r
}

/// A lista `ds` deslocada `n` casas para cima.
pub(crate) fn deslocar(ds: &Vec<u8>, n: usize) -> (r: Vec<u8>)
    requires
        validos(ds@),
    ensures
        validos(r@),
        valor(r@) == valor(ds@) * dez(n as nat),
{
    let mut r = zeros(n);
    let ghost base = r@;
    let mut i: usize = 0;
    while i < ds.len()
        invariant
            i <= ds@.len(),
            validos(ds@),
            validos(r@),
            r@ == base + ds@.take(i as int),
        decreases ds@.len() - i,
    {
        r.push(ds[i]);
        i = i + 1;
        proof {
            assert(r@ =~= base + ds@.take(i as int));
        }
    }
    proof {
        assert(ds@.take(ds@.len() as int) =~= ds@);
        lemma_valor_partido(r@, n as nat);
        assert(r@.take(n as int) =~= base);
        assert(r@.skip(n as int) =~= ds@);
        assert(dez(n as nat) * valor(ds@) == valor(ds@) * dez(n as nat)) by (nonlinear_arith);
    }
    r
}

/// Se algum dos `n` primeiros algarismos não é zero.
pub(crate) fn tem_resto(ds: &Vec<u8>, n: usize) -> (r: bool)
    requires
        validos(ds@),
        n <= ds@.len(),
    ensures
        r == (valor(ds@.take(n as int)) != 0),
{
    let mut i: usize = 0;
    proof {
        assert(ds@.take(0) =~= Seq::empty());
    }
    while i < n
        invariant
            i <= n <= ds@.len(),
            valor(ds@.take(i as int)) == 0,
        decreases n - i,
    {
        proof {
            assert(ds@.take(i + 1) =~= ds@.take(i as int).push(ds@[i as int]));
            lemma_valor_empilhado(ds@.take(i as int), ds@[i as int]);
            lemma_dez_positivo(i as nat);
        }
        if ds[i] != 0 {
            proof {
                assert(dez(i as nat) * ds@[i as int] > 0) by (nonlinear_arith)
                    requires
                        dez(i as nat) > 0,
                        ds@[i as int] > 0,
                ;
                lemma_valor_partido(ds@.take(n as int), (i + 1) as nat);
                assert(ds@.take(n as int).take(i + 1) =~= ds@.take(i + 1));
                assert(dez((i + 1) as nat) * valor(ds@.take(n as int).skip(i + 1)) >= 0)
                    by (nonlinear_arith);
            }
            return true;
        }
        i = i + 1;
        proof {
            assert(dez((i - 1) as nat) * 0 == 0);
        }
    }
    false
}

/// `ds / 10^k` arredondado a `casas` casas, em unidades da última.
fn arredondar_casas(ds: &Vec<u8>, k: usize, casas: usize) -> (r: Vec<u8>)
    requires
        validos(ds@),
        k <= 1074,
    ensures
        validos(r@),
        valor(r@) == meio_par(valor(ds@) * dez(casas as nat), dez(k as nat)),
{
    let ghost a = valor(ds@);
    proof {
        lemma_dez_positivo(k as nat);
    }
    if casas >= k {
        let r = deslocar(ds, casas - k);
        proof {
            lemma_dez_soma((casas - k) as nat, k as nat);
            let n = a * dez((casas - k) as nat);
            assert(a * dez(casas as nat) == n * dez(k as nat)) by (nonlinear_arith)
                requires
                    n == a * dez((casas - k) as nat),
                    dez(casas as nat) == dez((casas - k) as nat) * dez(k as nat),
            ;
            vstd::arithmetic::div_mod::lemma_fundamental_div_mod_converse(
                (a * dez(casas as nat)) as int,
                dez(k as nat) as int,
                n as int,
                0,
            );
        }
        return r;
    }
    let j: usize = k - casas;
    let mut cs: Vec<u8> = Vec::new();
    let mut i: usize = 0;
    while i < ds.len()
        invariant
            i <= ds@.len(),
            cs@ == ds@.take(i as int),
        decreases ds@.len() - i,
    {
        cs.push(ds[i]);
        i = i + 1;
        proof {
            assert(cs@ =~= ds@.take(i as int));
        }
    }
    proof {
        assert(ds@.take(ds@.len() as int) =~= ds@);
    }
    while cs.len() < j
        invariant
            validos(cs@),
            valor(cs@) == a,
        decreases j - cs@.len(),
    {
        proof {
            lemma_valor_empilhado(cs@, 0);
            assert(dez(cs@.len()) * 0 == 0);
        }
        cs.push(0);
    }
    let mut alto: Vec<u8> = Vec::new();
    i = j;
    while i < cs.len()
        invariant
            j <= i <= cs@.len(),
            alto@ == cs@.subrange(j as int, i as int),
        decreases cs@.len() - i,
    {
        alto.push(cs[i]);
        i = i + 1;
        proof {
            assert(alto@ =~= cs@.subrange(j as int, i as int));
        }
    }
    proof {
        assert(alto@ =~= cs@.skip(j as int));
        lemma_valor_divisao(cs@, j as nat);
        lemma_dez_soma(j as nat, casas as nat);
        lemma_dez_positivo(j as nat);
        lemma_dez_positivo(casas as nat);
        lemma_meio_par_escala(a, dez(j as nat), dez(casas as nat));
    }
    let topo: u8 = cs[j - 1];
    let sobra = tem_resto(&cs, j - 1);
    let ghost baixo = valor(cs@.take(j as int));
    let ghost fim = valor(cs@.take(j - 1));
    let ghost e = dez((j - 1) as nat);
    proof {
        assert(cs@.take(j as int) =~= cs@.take(j - 1).push(topo));
        lemma_valor_empilhado(cs@.take(j - 1), topo);
        lemma_valor_limite(cs@.take(j - 1));
        assert(dez(j as nat) == 10 * e);
        assert(topo > 5 ==> baixo > 5 * e) by (nonlinear_arith)
            requires
                baixo == fim + e * topo,
                e > 0,
        ;
        assert(topo < 5 ==> baixo < 5 * e) by (nonlinear_arith)
            requires
                baixo == fim + e * topo,
                fim < e,
        ;
        assert(topo == 5 ==> baixo == fim + 5 * e) by (nonlinear_arith)
            requires
                baixo == fim + e * topo,
        ;
        if alto@.len() > 0 {
            assert(valor(alto@) % 2 == (alto@[0] as nat) % 2) by {
                assert(valor(alto@) == alto@[0] as nat + 10 * valor(alto@.drop_first()));
            }
        }
    }
    let impar = alto.len() > 0 && alto[0] % 2 == 1;
    if topo > 5 || (topo == 5 && (sobra || impar)) {
        incrementar(&mut alto);
    }
    alto
}

/// O numeral de uma lista de algarismos com o ponto antes dos últimos `casas`.
fn pontuar(ds: Vec<u8>, casas: usize, saida: &mut String)
    requires
        validos(ds@),
        casas <= 65535,
    ensures
        final(saida)@ == old(saida)@ + com_ponto(valor(ds@), casas as nat),
{
    let mut ds = ds;
    let ghost n = valor(ds@);
    let ghost antes = saida@;
    while ds.len() < casas + 1
        invariant
            validos(ds@),
            valor(ds@) == n,
            casas <= 65535,
        decreases casas + 1 - ds@.len(),
    {
        proof {
            lemma_valor_empilhado(ds@, 0);
            assert(dez(ds@.len()) * 0 == 0);
        }
        ds.push(0);
    }
    while ds.len() > casas + 1 && ds[ds.len() - 1] == 0
        invariant
            validos(ds@),
            valor(ds@) == n,
            casas <= 65535,
            ds@.len() >= casas + 1,
        decreases ds@.len(),
    {
        proof {
            let t = ds@.drop_last();
            lemma_valor_empilhado(t, 0);
            assert(t.push(0) =~= ds@);
            assert(dez(t.len()) * 0 == 0);
        }
        ds.pop();
    }
    let total: usize = ds.len();
    let ghost alto = ds@.skip(casas as int);
    let ghost baixo = ds@.take(casas as int);
    proof {
        lemma_valor_divisao(ds@, casas as nat);
        lemma_de_cima(alto);
        lemma_de_cima(baixo);
        lemma_valor_limite(alto);
        if alto.len() > 1 {
            let t = alto.drop_last();
            assert(alto =~= t.push(alto.last()));
            lemma_valor_empilhado(t, alto.last());
            assert(alto.last() == ds@.last());
            assert(dez(t.len()) * alto.last() >= dez(t.len())) by (nonlinear_arith)
                requires
                    alto.last() >= 1,
            ;
        }
        lemma_digitos_preenchidos(valor(alto), alto.len());
    }
    let mut i: usize = total;
    while i > casas
        invariant
            casas <= i <= total,
            total == ds@.len(),
            validos(ds@),
            alto == ds@.skip(casas as int),
            saida@ == antes + de_cima(alto).take(total - i),
        decreases i,
    {
        i = i - 1;
        saida.push(caractere(ds[i]));
        proof {
            assert(de_cima(alto).take(total - i) =~= de_cima(alto).take(total - i - 1).push(
                de_cima(alto)[total - i - 1],
            ));
        }
    }
    proof {
        assert(de_cima(alto).take(total - i) =~= de_cima(alto));
    }
    if casas == 0 {
        proof {
            assert(alto =~= ds@);
        }
        return;
    }
    saida.push('.');
    let ghost meio = saida@;
    while i > 0
        invariant
            i <= casas,
            casas < total,
            total == ds@.len(),
            validos(ds@),
            baixo == ds@.take(casas as int),
            saida@ == meio + de_cima(baixo).take(casas - i),
        decreases i,
    {
        i = i - 1;
        saida.push(caractere(ds[i]));
        proof {
            assert(de_cima(baixo).take(casas - i) =~= de_cima(baixo).take(casas - i - 1).push(
                de_cima(baixo)[casas - i - 1],
            ));
        }
    }
    proof {
        assert(de_cima(baixo).take(casas as int) =~= de_cima(baixo));
        assert(saida@ =~= antes + (digitos(valor(alto)) + seq!['.'] + preenchidos(
            valor(baixo),
            casas as nat,
        )));
    }
}

/// Escreve um número com `casas` algarismos após o ponto.
pub fn escrever(x: Real, casas: usize, mais: bool) -> (r: String)
    requires
        casas <= 65535,
    ensures
        r@ == escrito(x, casas as nat, mais),
{
    let mut r = String::new();
    if x.eh_nan() {
        r.append("NaN");
        proof {
            assert(r@ =~= "NaN"@);
        }
        return r;
    }
    if x.eh_negativo() {
        r.push('-');
    } else if mais {
        r.push('+');
    }
    proof {
        assert(r@ =~= sinal_escrito(x, mais));
    }
    let m = x.magnitude();
    if m == INFINITO {
        r.append("inf");
        return r;
    }
    let (ds, k) = expandir(m);
    let d = arredondar_casas(&ds, k, casas);
    proof {
        let v = inteiro(m as nat);
        let a = valor(ds@);
        let c = dez(casas as nat);
        let t = dez(k as nat);
        lemma_dez_positivo(k as nat);
        lemma_pow2_pos(1074);
        lemma_meio_par_escala(v * c, um(), t);
        lemma_meio_par_escala(a * c, t, um());
        assert((v * c) * t == (a * c) * um()) by (nonlinear_arith)
            requires
                v * t == a * um(),
        ;
        assert(um() * t == t * um()) by (nonlinear_arith);
    }
    pontuar(d, casas, &mut r);
    r
}

} // verus!
