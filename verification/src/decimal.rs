//! Numerais decimais: algarismos de um natural e contas sobre listas de algarismos.
//!
//! Uma lista de algarismos tem o menos significativo primeiro e tamanho qualquer,
//! de modo que as contas são exatas.

use vstd::arithmetic::div_mod::lemma_fundamental_div_mod_converse;
use vstd::prelude::*;

verus! {

/// 10^n.
pub open spec fn dez(n: nat) -> nat
    decreases n,
{
    if n == 0 {
        1
    } else {
        10 * dez((n - 1) as nat)
    }
}

/// O caractere do algarismo `d`.
pub open spec fn algarismo(d: nat) -> char {
    (48 + d) as char
}

/// O numeral decimal de `n`, sem zeros à esquerda.
pub open spec fn digitos(n: nat) -> Seq<char>
    decreases n,
{
    if n < 10 {
        seq![algarismo(n)]
    } else {
        digitos(n / 10).push(algarismo(n % 10))
    }
}

/// Os `w` algarismos menos significativos de `n`, com zeros à esquerda.
pub open spec fn preenchidos(n: nat, w: nat) -> Seq<char>
    decreases w,
{
    if w == 0 {
        Seq::empty()
    } else {
        preenchidos(n / 10, (w - 1) as nat).push(algarismo(n % 10))
    }
}

/// O numeral de `d / 10^casas`, com exatamente `casas` algarismos após o ponto.
pub open spec fn com_ponto(d: nat, casas: nat) -> Seq<char> {
    if casas == 0 {
        digitos(d)
    } else {
        digitos(d / dez(casas)) + seq!['.'] + preenchidos(d % dez(casas), casas)
    }
}

/// Se todos são algarismos.
pub open spec fn validos(ds: Seq<u8>) -> bool {
    forall|i: int| 0 <= i < ds.len() ==> ds[i] < 10
}

/// O natural que uma lista de algarismos representa.
pub open spec fn valor(ds: Seq<u8>) -> nat
    decreases ds.len(),
{
    if ds.len() == 0 {
        0
    } else {
        ds[0] as nat + 10 * valor(ds.drop_first())
    }
}

pub proof fn lemma_dez_positivo(n: nat)
    ensures
        dez(n) > 0,
    decreases n,
{
    if n > 0 {
        lemma_dez_positivo((n - 1) as nat);
    }
}

pub proof fn lemma_dez_soma(a: nat, b: nat)
    ensures
        dez(a + b) == dez(a) * dez(b),
    decreases a,
{
    if a > 0 {
        lemma_dez_soma((a - 1) as nat, b);
        assert(10 * (dez((a - 1) as nat) * dez(b)) == (10 * dez((a - 1) as nat)) * dez(b))
            by (nonlinear_arith);
    } else {
        assert(1 * dez(b) == dez(b));
    }
}

pub proof fn lemma_dez_monotona(a: nat, b: nat)
    requires
        a <= b,
    ensures
        dez(a) <= dez(b),
    decreases b,
{
    lemma_dez_positivo(a);
    if a < b {
        lemma_dez_monotona(a, (b - 1) as nat);
    }
}

/// Uma lista vale a parte baixa mais a parte alta deslocada.
pub proof fn lemma_valor_partido(ds: Seq<u8>, k: nat)
    requires
        k <= ds.len(),
    ensures
        valor(ds) == valor(ds.take(k as int)) + dez(k) * valor(ds.skip(k as int)),
    decreases k,
{
    if k == 0 {
        assert(ds.skip(0) =~= ds);
        assert(1 * valor(ds) == valor(ds));
    } else {
        let t = ds.drop_first();
        lemma_valor_partido(t, (k - 1) as nat);
        assert(ds.take(k as int).drop_first() =~= t.take(k - 1));
        assert(ds.skip(k as int) =~= t.skip(k - 1));
        let a = valor(t.take(k - 1));
        let b = valor(t.skip(k - 1));
        let e = dez((k - 1) as nat);
        assert(10 * (a + e * b) == 10 * a + (10 * e) * b) by (nonlinear_arith);
    }
}

pub proof fn lemma_valor_limite(ds: Seq<u8>)
    requires
        validos(ds),
    ensures
        valor(ds) < dez(ds.len()),
    decreases ds.len(),
{
    if ds.len() > 0 {
        lemma_valor_limite(ds.drop_first());
    }
}

/// A parte baixa é o resto e a parte alta o quociente por uma potência de dez.
pub proof fn lemma_valor_divisao(ds: Seq<u8>, k: nat)
    requires
        validos(ds),
        k <= ds.len(),
    ensures
        valor(ds) / dez(k) == valor(ds.skip(k as int)),
        valor(ds) % dez(k) == valor(ds.take(k as int)),
{
    lemma_valor_partido(ds, k);
    lemma_valor_limite(ds.take(k as int));
    lemma_dez_positivo(k);
    let a = valor(ds.take(k as int));
    let b = valor(ds.skip(k as int));
    assert(valor(ds) == b * dez(k) + a) by (nonlinear_arith)
        requires
            valor(ds) == a + dez(k) * b,
    ;
    lemma_fundamental_div_mod_converse(valor(ds) as int, dez(k) as int, b as int, a as int);
}

pub proof fn lemma_valor_empilhado(ds: Seq<u8>, d: u8)
    ensures
        valor(ds.push(d)) == valor(ds) + dez(ds.len()) * d,
{
    let s = ds.push(d);
    lemma_valor_partido(s, ds.len());
    assert(s.take(ds.len() as int) =~= ds);
    assert(s.skip(ds.len() as int) =~= seq![d]);
    assert(seq![d].drop_first() =~= Seq::empty());
    assert(valor(seq![d].drop_first()) == 0);
    assert(valor(seq![d]) == d);
}

/// Os algarismos lidos do mais para o menos significativo.
pub open spec fn de_cima(ds: Seq<u8>) -> Seq<char> {
    Seq::new(ds.len(), |i: int| algarismo(ds[ds.len() - 1 - i] as nat))
}

pub proof fn lemma_de_cima(ds: Seq<u8>)
    requires
        validos(ds),
    ensures
        de_cima(ds) == preenchidos(valor(ds), ds.len()),
    decreases ds.len(),
{
    if ds.len() > 0 {
        let t = ds.drop_first();
        lemma_de_cima(t);
        assert(de_cima(ds) =~= de_cima(t).push(algarismo(ds[0] as nat)));
    } else {
        assert(de_cima(ds) =~= Seq::empty());
    }
}

pub proof fn lemma_digitos_preenchidos(n: nat, w: nat)
    requires
        w >= 1,
        n < dez(w),
        w == 1 || n >= dez((w - 1) as nat),
    ensures
        digitos(n) == preenchidos(n, w),
    decreases w,
{
    if w == 1 {
        assert(dez(1) == 10 * dez(0));
        assert(preenchidos(n / 10, 0) =~= Seq::empty());
        assert(digitos(n) =~= preenchidos(n, 1));
    } else {
        assert(dez(w) == 10 * dez((w - 1) as nat));
        assert(dez((w - 1) as nat) == 10 * dez((w - 2) as nat));
        lemma_dez_positivo((w - 2) as nat);
        lemma_digitos_preenchidos(n / 10, (w - 1) as nat);
    }
}

/// Todo numeral tem algum algarismo, e cada caractere é um algarismo.
pub proof fn lemma_digitos_sao_algarismos(n: nat)
    ensures
        digitos(n).len() >= 1,
        forall|i: int| 0 <= i < digitos(n).len() ==> '0' <= #[trigger] digitos(n)[i] <= '9',
    decreases n,
{
    if n >= 10 {
        lemma_digitos_sao_algarismos(n / 10);
    }
}

/// O numeral de um número abaixo de 10^w tem no máximo `w` algarismos.
pub proof fn lemma_digitos_tamanho(n: nat, w: nat)
    requires
        w >= 1,
        n < dez(w),
    ensures
        digitos(n).len() <= w,
    decreases w,
{
    if n >= 10 {
        if w == 1 {
            assert(dez(1) == 10 * dez(0));
        } else {
            lemma_digitos_tamanho(n / 10, (w - 1) as nat);
        }
    }
}

/// O caractere de um algarismo.
pub(crate) fn caractere(d: u8) -> (r: char)
    requires
        d < 10,
    ensures
        r == algarismo(d as nat),
{
    (48 + d) as char
}

/// Os algarismos de `n`.
pub(crate) fn algarismos(n: u128) -> (r: Vec<u8>)
    ensures
        validos(r@),
        valor(r@) == n,
        r@.len() <= 39,
        n == 0 ==> r@.len() == 0,
        n > 0 ==> r@.len() > 0 && r@.last() > 0,
{
    let mut r: Vec<u8> = Vec::new();
    let mut resta: u128 = n;
    proof {
        lemma_dez_39();
        assert(1 * n == n);
    }
    while resta > 0
        invariant
            validos(r@),
            r@.len() <= 39,
            n <= dez(39) - 1,
            valor(r@) + dez(r@.len()) * resta == n,
            resta == 0 && n > 0 ==> r@.len() > 0 && r@.last() > 0,
            n == 0 ==> r@.len() == 0 && resta == 0,
        decreases resta,
    {
        let d: u8 = (resta % 10) as u8;
        proof {
            lemma_valor_empilhado(r@, d);
            let e = dez(r@.len());
            let q = resta / 10;
            assert(e * resta == e * d + (10 * e) * q) by (nonlinear_arith)
                requires
                    resta == 10 * q + d,
            ;
            if r@.len() >= 39 {
                lemma_dez_monotona(39, r@.len());
                assert(e * resta >= dez(39)) by (nonlinear_arith)
                    requires
                        e >= dez(39),
                        resta >= 1,
                ;
            }
        }
        r.push(d);
        resta = resta / 10;
    }
    proof {
        assert(dez(r@.len()) * 0 == 0);
    }
    r
}

proof fn lemma_dez_39()
    ensures
        dez(39) > u128::MAX,
{
    reveal_with_fuel(dez, 14);
    lemma_dez_soma(13, 13);
    lemma_dez_soma(26, 13);
    assert(dez(13) == 10_000_000_000_000);
    assert(dez(26) == 100_000_000_000_000_000_000_000_000) by (nonlinear_arith)
        requires
            dez(26) == dez(13) * dez(13),
            dez(13) == 10_000_000_000_000,
    ;
    assert(dez(39) == 1_000_000_000_000_000_000_000_000_000_000_000_000_000) by (nonlinear_arith)
        requires
            dez(39) == dez(26) * dez(13),
            dez(26) == 100_000_000_000_000_000_000_000_000,
            dez(13) == 10_000_000_000_000,
    ;
}

/// Multiplica a lista por `c`.
pub(crate) fn multiplicar(ds: &mut Vec<u8>, c: u8)
    requires
        validos(old(ds)@),
        c <= 10,
    ensures
        validos(final(ds)@),
        valor(final(ds)@) == c * valor(old(ds)@),
        final(ds)@.len() <= old(ds)@.len() + 1,
        final(ds)@.len() >= old(ds)@.len(),
{
    let ghost antes = ds@;
    let mut vai: u8 = 0;
    let n: usize = ds.len();
    let mut i: usize = 0;
    proof {
        assert(antes.take(0) =~= Seq::empty());
        assert(c * 0 == 0 && dez(0) * 0 == 0);
    }
    while i < n
        invariant
            i <= n,
            n == ds@.len(),
            n == antes.len(),
            c <= 10,
            vai < 10,
            validos(ds@),
            validos(antes),
            forall|j: int| i <= j < n ==> ds@[j] == antes[j],
            valor(ds@.take(i as int)) + dez(i as nat) * vai == c * valor(antes.take(i as int)),
        decreases n - i,
    {
        let x: u8 = ds[i];
        assert(c * x <= 90 && c * x >= 0) by (nonlinear_arith)
            requires
                0 <= c <= 10,
                0 <= x <= 9,
        ;
        let t: u8 = c * x + vai;
        let ghost ini = ds@.take(i as int);
        proof {
            lemma_valor_empilhado(ini, (t % 10) as u8);
            lemma_valor_empilhado(antes.take(i as int), x);
            assert(antes.take(i + 1) =~= antes.take(i as int).push(x));
            let e = dez(i as nat);
            let a = valor(antes.take(i as int));
            assert(valor(ini) + e * ((t % 10) as int) + (10 * e) * ((t / 10) as int) == c * (a + e
                * x)) by (nonlinear_arith)
                requires
                    valor(ini) + e * vai == c * a,
                    t == c * x + vai,
                    t == 10 * (t / 10) + t % 10,
            ;
        }
        ds.set(i, t % 10);
        vai = t / 10;
        proof {
            assert(ds@.take(i + 1) =~= ini.push((t % 10) as u8));
        }
        i = i + 1;
    }
    proof {
        assert(ds@.take(n as int) =~= ds@);
        assert(antes.take(n as int) =~= antes);
        lemma_valor_empilhado(ds@, vai);
        assert(dez(n as nat) * 0 == 0);
    }
    if vai > 0 {
        ds.push(vai);
    }
}

/// Divide a lista por dois; devolve o resto.
pub(crate) fn metade(ds: &mut Vec<u8>) -> (r: u8)
    requires
        validos(old(ds)@),
    ensures
        validos(final(ds)@),
        final(ds)@.len() == old(ds)@.len(),
        valor(old(ds)@) == 2 * valor(final(ds)@) + r,
        r <= 1,
{
    let ghost antes = ds@;
    let n: usize = ds.len();
    let mut i: usize = n;
    let mut resto: u8 = 0;
    proof {
        assert(antes.skip(n as int) =~= Seq::empty());
        assert(ds@.skip(n as int) =~= Seq::empty());
    }
    while i > 0
        invariant
            i <= n,
            n == ds@.len(),
            n == antes.len(),
            resto <= 1,
            validos(ds@),
            validos(antes),
            forall|j: int| 0 <= j < i ==> ds@[j] == antes[j],
            valor(antes.skip(i as int)) == 2 * valor(ds@.skip(i as int)) + resto,
        decreases i,
    {
        let ghost alto = ds@.skip(i as int);
        i = i - 1;
        let x: u8 = ds[i];
        let t: u8 = 10 * resto + x;
        ds.set(i, t / 2);
        resto = t % 2;
        proof {
            assert(antes.skip(i as int).drop_first() =~= antes.skip(i + 1));
            assert(ds@.skip(i as int).drop_first() =~= alto);
        }
    }
    proof {
        assert(ds@.skip(0) =~= ds@);
        assert(antes.skip(0) =~= antes);
    }
    resto
}

/// Soma um à lista.
pub(crate) fn incrementar(ds: &mut Vec<u8>)
    requires
        validos(old(ds)@),
    ensures
        validos(final(ds)@),
        valor(final(ds)@) == valor(old(ds)@) + 1,
        final(ds)@.len() >= old(ds)@.len(),
{
    let ghost antes = ds@;
    let n: usize = ds.len();
    let mut i: usize = 0;
    proof {
        assert(antes.take(0) =~= Seq::empty());
        lemma_valor_partido(antes, 0);
    }
    while i < n && ds[i] == 9
        invariant
            i <= n,
            n == ds@.len(),
            n == antes.len(),
            validos(ds@),
            validos(antes),
            forall|j: int| i <= j < n ==> ds@[j] == antes[j],
            valor(ds@.take(i as int)) + dez(i as nat) == valor(antes.take(i as int)) + 1,
        decreases n - i,
    {
        let ghost ini = ds@.take(i as int);
        ds.set(i, 0);
        proof {
            lemma_valor_empilhado(ini, 0);
            lemma_valor_empilhado(antes.take(i as int), 9);
            assert(ds@.take(i + 1) =~= ini.push(0));
            assert(antes.take(i + 1) =~= antes.take(i as int).push(9));
        }
        i = i + 1;
    }
    let ghost ini = ds@.take(i as int);
    proof {
        lemma_valor_partido(antes, i as nat);
    }
    if i == n {
        proof {
            assert(ds@.take(n as int) =~= ds@);
            assert(antes.take(n as int) =~= antes);
            lemma_valor_empilhado(ds@, 1);
        }
        ds.push(1);
    } else {
        let x: u8 = ds[i];
        ds.set(i, x + 1);
        proof {
            lemma_valor_partido(ds@, i as nat);
            assert(ds@.take(i as int) =~= ini);
            assert(ds@.skip(i as int).drop_first() =~= antes.skip(i as int).drop_first());
            let a = valor(antes.skip(i as int));
            let e = dez(i as nat);
            assert(e * (a + 1) == e * a + e) by (nonlinear_arith);
        }
    }
}

} // verus!
