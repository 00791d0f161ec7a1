//! Leitura de numerais decimais como números de ponto flutuante.

use vstd::arithmetic::div_mod::lemma_fundamental_div_mod;
use vstd::arithmetic::power2::{
    lemma2_to64, lemma2_to64_rest, lemma_pow2_adds, lemma_pow2_pos, lemma_pow2_unfold, pow2,
};
use vstd::prelude::*;

use crate::arredonda::{
    arredondar, bits, excesso, lemma_bits_limites, lemma_magnitude_nula, lemma_pow2_monotona,
    magnitude, piso, INFINITO, PASSO,
};
use crate::decimal::{
    dez, lemma_dez_monotona, lemma_dez_positivo, lemma_dez_soma, lemma_valor_divisao,
    lemma_valor_empilhado, lemma_valor_limite, lemma_valor_partido, metade, multiplicar, valor,
    validos,
};
use crate::numerais::{deslocar, tem_resto};
use crate::reais::{com_sinal, compor, um, Real, NAO_NUMERO};
use crate::texto::caracteres;

verus! {

pub open spec fn eh_algarismo(c: char) -> bool {
    '0' <= c <= '9'
}

/// Quantos algarismos há no começo do texto.
pub open spec fn quantos_algarismos(s: Seq<char>) -> nat
    decreases s.len(),
{
    if s.len() > 0 && eh_algarismo(s[0]) {
        1 + quantos_algarismos(s.drop_first())
    } else {
        0
    }
}

/// O natural escrito por uma sequência de algarismos.
pub open spec fn natural_de(s: Seq<char>) -> nat
    decreases s.len(),
{
    if s.len() == 0 {
        0
    } else {
        10 * natural_de(s.drop_last()) + (s.last() as nat - 48) as nat
    }
}

/// O texto sem um sinal inicial, e se o sinal era de menos.
pub open spec fn sem_sinal_inicial(s: Seq<char>) -> (bool, Seq<char>) {
    if s.len() > 0 && (s[0] == '-' || s[0] == '+') {
        (s[0] == '-', s.skip(1))
    } else {
        (false, s)
    }
}

/// O expoente escrito após os algarismos: nada, ou `e` seguido de um inteiro.
pub open spec fn expoente_lido(u: Seq<char>) -> Option<int> {
    if u.len() == 0 {
        Some(0)
    } else if u[0] == 'e' || u[0] == 'E' {
        let (neg, v) = sem_sinal_inicial(u.skip(1));
        if v.len() > 0 && quantos_algarismos(v) == v.len() {
            let e = natural_de(v) as int;
            Some(if neg { -e } else { e })
        } else {
            None
        }
    } else {
        None
    }
}

/// Lê um numeral decimal sem sinal, com ponto e expoente opcionais: os algarismos
/// como um natural e o expoente de dez que os multiplica.
pub open spec fn numeral_lido(t: Seq<char>) -> Option<(nat, int)> {
    let i = quantos_algarismos(t) as int;
    let ponto = i < t.len() && t[i] == '.';
    let f = if ponto { quantos_algarismos(t.skip(i + 1)) as int } else { 0 };
    let j = if ponto { i + 1 + f } else { i };
    let frac = if ponto { t.subrange(i + 1, i + 1 + f) } else { Seq::empty() };
    if i + f == 0 {
        None
    } else {
        match expoente_lido(t.skip(j)) {
            Some(e) => Some((natural_de(t.take(i) + frac), e - f)),
            None => None,
        }
    }
}

/// Magnitude do número mais próximo de `d * 10^e`.
pub open spec fn magnitude_decimal(d: nat, e: int) -> nat {
    if e >= 0 {
        magnitude((d * dez(e as nat)) * um(), 1)
    } else {
        magnitude(d * um(), dez((-e) as nat))
    }
}

/// O caractere em minúscula, se é uma letra ASCII.
pub open spec fn minuscula(c: char) -> char {
    if 'A' <= c <= 'Z' {
        (c as u32 + 32) as char
    } else {
        c
    }
}

pub open spec fn minusculas(s: Seq<char>) -> Seq<char> {
    s.map_values(|c: char| minuscula(c))
}

/// Lê um número: sinal opcional e um numeral decimal, `inf`, `infinity` ou `nan`.
pub open spec fn lido(s: Seq<char>) -> Option<Real> {
    let (neg, t) = sem_sinal_inicial(s);
    let m = minusculas(t);
    if m == "inf"@ || m == "infinity"@ {
        Some(com_sinal(neg, INFINITO as nat))
    } else if m == "nan"@ {
        Some(Real { bits: NAO_NUMERO })
    } else {
        match numeral_lido(t) {
            Some((d, e)) => Some(com_sinal(neg, magnitude_decimal(d, e))),
            None => None,
        }
    }
}

proof fn lemma_dez_acima_de_dois(i: nat)
    ensures
        dez(10 * i) >= pow2(33 * i),
    decreases i,
{
    if i == 0 {
        lemma2_to64();
    } else {
        lemma_dez_acima_de_dois((i - 1) as nat);
        lemma_dez_soma(10, (10 * (i - 1)) as nat);
        lemma_pow2_adds(33, (33 * (i - 1)) as nat);
        lemma2_to64_rest();
        reveal_with_fuel(dez, 11);
        let a = dez((10 * (i - 1)) as nat);
        let b = pow2((33 * (i - 1)) as nat);
        assert(dez(10) == 10_000_000_000);
        assert(10_000_000_000 * a >= 0x2_0000_0000 * b) by (nonlinear_arith)
            requires
                a >= b,
                b >= 0,
        ;
    }
}

proof fn lemma_dez_abaixo_de_dois(n: nat)
    ensures
        dez(n) <= pow2(4 * n),
    decreases n,
{
    if n == 0 {
        lemma2_to64();
    } else {
        lemma_dez_abaixo_de_dois((n - 1) as nat);
        lemma_pow2_adds(4, (4 * (n - 1)) as nat);
        lemma2_to64();
    }
}

/// A partir de 2^1024 o número mais próximo é infinito.
proof fn lemma_magnitude_infinita(num: nat, den: nat)
    requires
        den > 0,
        num >= pow2(2098) * den,
    ensures
        magnitude(num, den) == INFINITO,
{
    let q = num / den;
    assert(q >= pow2(2098)) by (nonlinear_arith)
        requires
            num >= pow2(2098) * den,
            den > 0,
            q == num / den,
    ;
    lemma_pow2_pos(2098);
    lemma_bits_limites(q);
    if bits(q) < 2099 {
        lemma_pow2_monotona(bits(q), 2098);
    }
    let k = excesso(num, den);
    assert(k >= 2046);
    let d = den * pow2(k);
    lemma_pow2_pos(k);
    lemma_pow2_adds(52, k);
    lemma2_to64_rest();
    let b = bits(q);
    assert(pow2((b - 1) as nat) == pow2(52) * pow2(k));
    assert(num >= q * den) by (nonlinear_arith)
        requires
            q == num / den,
            den > 0,
    ;
    assert(num / d >= PASSO) by (nonlinear_arith)
        requires
            num >= q * den,
            q >= 0x10_0000_0000_0000 * pow2(k),
            d == den * pow2(k),
            den > 0,
            pow2(k) > 0,
            PASSO == 0x10_0000_0000_0000,
    ;
    assert(k * (PASSO as nat) >= 2046 * (PASSO as nat)) by (nonlinear_arith)
        requires
            k >= 2046,
    ;
}

/// O natural formado pelos algarismos a partir do `k`-ésimo.
fn natural_acima(ds: &Vec<u8>, k: usize) -> (r: u128)
    requires
        validos(ds@),
        k <= ds@.len(),
        valor(ds@.skip(k as int)) < 0x1000_0000_0000_0000_0000_0000_0000,
    ensures
        r == valor(ds@.skip(k as int)),
{
    let mut i: usize = ds.len();
    let mut r: u128 = 0;
    proof {
        assert(ds@.skip(ds@.len() as int) =~= Seq::empty());
    }
    while i > k
        invariant
            k <= i <= ds@.len(),
            validos(ds@),
            valor(ds@.skip(k as int)) < 0x1000_0000_0000_0000_0000_0000_0000,
            r == valor(ds@.skip(i as int)),
        decreases i,
    {
        i = i - 1;
        proof {
            assert(ds@.skip(i as int).drop_first() =~= ds@.skip(i + 1));
            let t = ds@.skip(k as int);
            lemma_valor_partido(t, (i - k) as nat);
            assert(t.skip(i - k) =~= ds@.skip(i as int));
            lemma_dez_positivo((i - k) as nat);
            let a = valor(ds@.skip(i as int));
            assert(dez((i - k) as nat) * a >= a) by (nonlinear_arith)
                requires
                    dez((i - k) as nat) >= 1,
                    a >= 0,
            ;
        }
        r = 10 * r + ds[i] as u128;
    }
    r
}

/// Tira os zeros do topo da lista.
fn aparar_zeros(ds: &mut Vec<u8>)
    requires
        validos(old(ds)@),
    ensures
        validos(final(ds)@),
        valor(final(ds)@) == valor(old(ds)@),
        final(ds)@.len() <= old(ds)@.len(),
        final(ds)@.len() > 0 ==> final(ds)@.last() > 0,
{
    let ghost n = valor(ds@);
    let ghost tam = ds@.len();
    while ds.len() > 0 && ds[ds.len() - 1] == 0
        invariant
            validos(ds@),
            valor(ds@) == n,
            ds@.len() <= tam,
        decreases ds@.len(),
    {
        proof {
            let t = ds@.drop_last();
            lemma_valor_empilhado(t, 0);
            assert(t.push(0) =~= ds@);
            assert(dez(t.len()) * 0 == 0);
        }
        ds.pop();
    }
}

proof fn lemma_topo(ds: Seq<u8>)
    requires
        validos(ds),
        ds.len() > 0,
        ds.last() > 0,
    ensures
        dez((ds.len() - 1) as nat) <= valor(ds) < dez(ds.len()),
{
    let t = ds.drop_last();
    lemma_valor_limite(ds);
    lemma_valor_empilhado(t, ds.last());
    assert(t.push(ds.last()) =~= ds);
    assert(dez(t.len()) * ds.last() >= dez(t.len())) by (nonlinear_arith)
        requires
            ds.last() >= 1,
    ;
}

/// A parte inteira de `ds / 10^k`.
fn inteiros(ds: &Vec<u8>, k: u128) -> (r: u128)
    requires
        validos(ds@),
        valor(ds@) / dez(k as nat) < 0x1000_0000_0000_0000_0000_0000_0000,
    ensures
        r == valor(ds@) / dez(k as nat),
{
    if k >= ds.len() as u128 {
        proof {
            lemma_abaixo_da_potencia(ds@, k as nat);
        }
        return 0;
    }
    proof {
        lemma_valor_divisao(ds@, k as nat);
    }
    natural_acima(ds, k as usize)
}

/// Se `ds / 10^k` tem fração.
fn tem_fracao(ds: &Vec<u8>, k: u128) -> (r: bool)
    requires
        validos(ds@),
    ensures
        r == (valor(ds@) % dez(k as nat) != 0),
{
    if k >= ds.len() as u128 {
        proof {
            lemma_abaixo_da_potencia(ds@, k as nat);
            assert(ds@.take(ds@.len() as int) =~= ds@);
        }
        return tem_resto(ds, ds.len());
    }
    proof {
        lemma_valor_divisao(ds@, k as nat);
    }
    tem_resto(ds, k as usize)
}

proof fn lemma_abaixo_da_potencia(ds: Seq<u8>, k: nat)
    requires
        validos(ds),
        k >= ds.len(),
    ensures
        valor(ds) / dez(k) == 0,
        valor(ds) % dez(k) == valor(ds),
{
    lemma_valor_limite(ds);
    lemma_dez_monotona(ds.len(), k);
    let (x, q) = (valor(ds), dez(k));
    assert(x / q == 0 && x % q == x) by (nonlinear_arith)
        requires
            x < q,
    ;
}

/// Os limites da parte inteira `n` de `x / q`.
proof fn lemma_parte_inteira(x: nat, q: nat, n: nat, resto: bool)
    requires
        q > 0,
        n == x / q,
        resto <==> x % q != 0,
    ensures
        n * q <= x < (n + 1) * q,
        resto <==> x != n * q,
{
    lemma_fundamental_div_mod(x as int, q as int);
    let r = x as int % q as int;
    assert(n * q <= x < (n + 1) * q && (resto <==> x != n * q)) by (nonlinear_arith)
        requires
            x == q * n + r,
            0 <= r < q,
            resto <==> r != 0,
    ;
}

/// Magnitude do número mais próximo de `ds / 10^k`, com menos de 2^53 de parte inteira.
fn magnitude_pequena(ds: Vec<u8>, k: u128) -> (r: u64)
    requires
        validos(ds@),
        valor(ds@) / dez(k as nat) < 0x20_0000_0000_0000,
    ensures
        r == magnitude(valor(ds@) * um(), dez(k as nat)),
{
    let ghost a = valor(ds@);
    let ghost q = dez(k as nat);
    let mut v = ds;
    let mut z: i32 = 0;
    let mut n = inteiros(&v, k);
    proof {
        lemma2_to64();
        lemma_dez_positivo(k as nat);
        assert(a * 1 == a);
    }
    while n < 0x20_0000_0000_0000 && z < 1200
        invariant
            0 <= z <= 1200,
            validos(v@),
            q == dez(k as nat),
            q > 0,
            valor(v@) == a * pow2(z as nat),
            n == valor(v@) / q,
            n < 0x40_0000_0000_0000,
        decreases 1200 - z,
    {
        let ghost x = valor(v@);
        multiplicar(&mut v, 2);
        proof {
            lemma_pow2_unfold((z + 1) as nat);
            let p = pow2(z as nat);
            assert(2 * (a * p) == a * (2 * p)) by (nonlinear_arith);
            assert((2 * x) / q < 0x40_0000_0000_0000) by (nonlinear_arith)
                requires
                    x / q < 0x20_0000_0000_0000,
                    q > 0,
            ;
        }
        z = z + 1;
        n = inteiros(&v, k);
    }
    let resto = tem_fracao(&v, k);
    let ghost p = pow2(z as nat);
    let ghost num = a * um();
    proof {
        lemma_parte_inteira(valor(v@), q, n as nat, resto);
    }
    if n < 0x20_0000_0000_0000 {
        proof {
            lemma2_to64_rest();
            lemma_pow2_adds(53, 1147);
            lemma_pow2_adds(73, 1074);
            let b = pow2(1147);
            assert(a * b < q) by (nonlinear_arith)
                requires
                    a * p < (n + 1) * q,
                    n + 1 <= 0x20_0000_0000_0000,
                    p == 0x20_0000_0000_0000 * b,
                    q > 0,
                    b >= 0,
            ;
            lemma_pow2_pos(72);
            lemma_pow2_unfold(73);
            assert(2 * num < q) by (nonlinear_arith)
                requires
                    num == a * um(),
                    a * b < q,
                    b == pow2(73) * um(),
                    pow2(73) >= 2,
                    um() >= 0,
            ;
            lemma_magnitude_nula(num, q);
        }
        return 0;
    }
    proof {
        let s = 1074 - z;
        if s >= 0 {
            let g = pow2(s as nat);
            lemma_pow2_pos(s as nat);
            lemma_pow2_adds(z as nat, s as nat);
            assert(n * (q * g) <= num < (n + 1) * (q * g) && (resto <==> num != n * (q * g)))
                by (nonlinear_arith)
                requires
                    n * q <= a * p < (n + 1) * q,
                    resto <==> a * p != n * q,
                    num == a * um(),
                    p * g == um(),
                    g > 0,
            ;
        } else {
            let g = pow2((-s) as nat);
            lemma_pow2_adds(1074, (-s) as nat);
            assert(num * g == a * p) by (nonlinear_arith)
                requires
                    num == a * um(),
                    um() * g == p,
            ;
        }
        assert(piso(num, q, n as nat, resto, s as int));
    }
    arredondar(n, resto, 1074 - z, Ghost(num), Ghost(q))
}

/// Os algarismos da parte inteira de `ds / 10^k`, sem zeros no topo.
fn lista_inteira(ds: &Vec<u8>, k: u128) -> (r: Vec<u8>)
    requires
        validos(ds@),
    ensures
        validos(r@),
        valor(r@) == valor(ds@) / dez(k as nat),
        r@.len() > 0 ==> r@.last() > 0,
        r@.len() + k <= ds@.len() || r@.len() == 0,
{
    let mut alto: Vec<u8> = Vec::new();
    if k >= ds.len() as u128 {
        proof {
            lemma_abaixo_da_potencia(ds@, k as nat);
        }
        return alto;
    }
    let mut i: usize = k as usize;
    while i < ds.len()
        invariant
            k <= i <= ds@.len(),
            alto@ == ds@.subrange(k as int, i as int),
        decreases ds@.len() - i,
    {
        alto.push(ds[i]);
        i = i + 1;
        proof {
            assert(alto@ =~= ds@.subrange(k as int, i as int));
        }
    }
    proof {
        assert(alto@ =~= ds@.skip(k as int));
        lemma_valor_divisao(ds@, k as nat);
    }
    aparar_zeros(&mut alto);
    alto
}

/// Magnitude do número mais próximo de `ds / 10^k`.
fn magnitude_da_lista(ds: Vec<u8>, k: u128) -> (r: u64)
    requires
        validos(ds@),
        ds@.len() - k <= 321,
    ensures
        r == magnitude(valor(ds@) * um(), dez(k as nat)),
{
    let ghost a = valor(ds@);
    let ghost q = dez(k as nat);
    proof {
        lemma_dez_positivo(k as nat);
        lemma_dez_25();
        lemma2_to64();
    }
    let mut alto = lista_inteira(&ds, k);
    proof {
        assert(alto@.skip(0) =~= alto@);
        lemma_valor_limite(alto@);
        lemma_dez_monotona(alto@.len(), 321);
    }
    if alto.len() <= 25 {
        proof {
            lemma_dez_monotona(alto@.len(), 25);
        }
        let n = natural_acima(&alto, 0);
        if n < 0x20_0000_0000_0000 {
            return magnitude_pequena(ds, k);
        }
    }
    let mut resto = tem_fracao(&ds, k);
    let mut s: i32 = 0;
    proof {
        let n = valor(alto@);
        assert(q * 1 == q);
        lemma_parte_inteira(a, q, n, resto);
        assert(a < dez(321) * q) by (nonlinear_arith)
            requires
                a < (n + 1) * q,
                n + 1 <= dez(321),
                q > 0,
        ;
    }
    while alto.len() > 25
        invariant
            0 <= s <= 4 * 321,
            validos(alto@),
            alto@.len() > 0 ==> alto@.last() > 0,
            q > 0,
            a < dez(321) * q,
            valor(alto@) * (q * pow2(s as nat)) <= a < (valor(alto@) + 1) * (q * pow2(s as nat)),
            resto <==> a != valor(alto@) * (q * pow2(s as nat)),
            dez(25) > 0x80_0000_0000_0000,
            alto@.len() <= 25 ==> valor(alto@) >= 0x20_0000_0000_0000,
        decreases valor(alto@),
    {
        let ghost n0 = valor(alto@);
        let ghost g = q * pow2(s as nat);
        proof {
            lemma_topo(alto@);
            lemma_dez_monotona(25, (alto@.len() - 1) as nat);
            lemma_pow2_pos(s as nat);
            lemma_pow2_unfold((s + 1) as nat);
            // A lista ainda é grande, então `s` ainda é pequeno.
            lemma_dez_abaixo_de_dois(321);
            assert(pow2(s as nat) < dez(321)) by (nonlinear_arith)
                requires
                    n0 * (q * pow2(s as nat)) <= a,
                    a < dez(321) * q,
                    n0 >= 1,
                    q > 0,
            ;
            if s >= 4 * 321 {
                lemma_pow2_monotona(4 * 321, s as nat);
            }
        }
        let r = metade(&mut alto);
        if r > 0 {
            resto = true;
        }
        s = s + 1;
        proof {
            let n = valor(alto@);
            let h = q * pow2(s as nat);
            assert(h == 2 * g) by (nonlinear_arith)
                requires
                    h == q * pow2(s as nat),
                    g == q * pow2((s - 1) as nat),
                    pow2(s as nat) == 2 * pow2((s - 1) as nat),
            ;
            assert(g > 0) by (nonlinear_arith)
                requires
                    g == q * pow2((s - 1) as nat),
                    q > 0,
                    pow2((s - 1) as nat) > 0,
            ;
            assert(n * h <= a < (n + 1) * h) by (nonlinear_arith)
                requires
                    n0 == 2 * n + r,
                    0 <= r <= 1,
                    h == 2 * g,
                    g > 0,
                    n0 * g <= a < (n0 + 1) * g,
            ;
            assert(r > 0 ==> a != n * h) by (nonlinear_arith)
                requires
                    n0 == 2 * n + r,
                    r >= 0,
                    h == 2 * g,
                    g > 0,
                    n0 * g <= a,
            ;
            assert(r == 0 ==> n * h == n0 * g) by (nonlinear_arith)
                requires
                    n0 == 2 * n + r,
                    h == 2 * g,
            ;
        }
        aparar_zeros(&mut alto);
    }
    proof {
        lemma_valor_limite(alto@);
        lemma_dez_monotona(alto@.len(), 25);
        lemma_dez_25();
        assert(alto@.skip(0) =~= alto@);
    }
    let n = natural_acima(&alto, 0);
    let ghost num = a * um();
    proof {
        let p = pow2(s as nat);
        lemma_pow2_adds(s as nat, 1074);
        lemma_pow2_pos(1074);
        let e = pow2((s + 1074) as nat);
        assert(n * (q * e) <= num < (n + 1) * (q * e) && (resto <==> num != n * (q * e)))
            by (nonlinear_arith)
            requires
                n * (q * p) <= a < (n + 1) * (q * p),
                resto <==> a != n * (q * p),
                num == a * um(),
                p * um() == e,
                um() > 0,
        ;
        assert(piso(num, q, n as nat, resto, (s + 1074) as int));
    }
    arredondar(n, resto, s + 1074, Ghost(num), Ghost(q))
}

proof fn lemma_dez_25()
    ensures
        0x80_0000_0000_0000 < dez(25) < 0x1000_0000_0000_0000_0000_0000_0000,
{
    reveal_with_fuel(dez, 26);
}

/// Um decimal a partir de 10^320 passa do maior número.
proof fn lemma_decimal_infinito(d: nat, m: nat, e: int)
    requires
        d >= dez(m),
        m + e >= 320,
    ensures
        magnitude_decimal(d, e) == INFINITO,
{
    lemma_dez_acima_de_dois(32);
    lemma_pow2_monotona(1024, 1056);
    lemma_pow2_adds(1024, 1074);
    lemma_pow2_pos(1074);
    lemma_dez_monotona(320, (m + e) as nat);
    if e >= 0 {
        lemma_dez_soma(m, e as nat);
        lemma_dez_positivo(e as nat);
        let x = d * dez(e as nat);
        assert(x >= pow2(1024)) by (nonlinear_arith)
            requires
                x == d * dez(e as nat),
                d >= dez(m),
                dez(m) * dez(e as nat) >= pow2(1024),
                dez(e as nat) > 0,
        ;
        assert(x * um() >= pow2(2098) * 1) by (nonlinear_arith)
            requires
                x >= pow2(1024),
                pow2(1024) * um() == pow2(2098),
                um() > 0,
        ;
        lemma_magnitude_infinita(x * um(), 1);
    } else {
        let k = (-e) as nat;
        lemma_dez_soma((m - k) as nat, k);
        lemma_dez_positivo(k);
        let b = dez((m - k) as nat);
        assert(d * um() >= pow2(2098) * dez(k)) by (nonlinear_arith)
            requires
                d >= b * dez(k),
                b >= pow2(1024),
                pow2(1024) * um() == pow2(2098),
                um() > 0,
                dez(k) > 0,
        ;
        lemma_magnitude_infinita(d * um(), dez(k));
    }
}

/// Um decimal abaixo de 10^-330 fica abaixo de meia unidade.
proof fn lemma_decimal_nulo(d: nat, n: nat, e: int)
    requires
        d < dez(n),
        n + e <= -330,
    ensures
        magnitude_decimal(d, e) == 0,
{
    let k = (-e) as nat;
    lemma_dez_acima_de_dois(33);
    lemma_pow2_monotona(1075, 1089);
    lemma_pow2_unfold(1075);
    lemma_pow2_pos(1074);
    lemma_dez_soma(n, (k - n) as nat);
    lemma_dez_monotona(330, (k - n) as nat);
    let b = dez((k - n) as nat);
    lemma_dez_positivo(n);
    assert(2 * (d * um()) < dez(k)) by (nonlinear_arith)
        requires
            d < dez(n),
            dez(k) == dez(n) * b,
            b >= 2 * um(),
            um() > 0,
    ;
    lemma_magnitude_nula(d * um(), dez(k));
}

proof fn lemma_decimal_zero(e: int)
    ensures
        magnitude_decimal(0, e) == 0,
{
    assert(0 * um() == 0);
    if e >= 0 {
        assert(0 * dez(e as nat) == 0);
        lemma_magnitude_nula(0, 1);
    } else {
        lemma_dez_positivo((-e) as nat);
        lemma_magnitude_nula(0, dez((-e) as nat));
    }
}

/// Magnitude do número mais próximo de `ds * 10^e`.
fn magnitude_do_numeral(ds: Vec<u8>, e: i128) -> (r: u64)
    requires
        validos(ds@),
        -0x1000_0000_0000_0000_0000_0000 < e < 0x1000_0000_0000_0000_0000_0000,
    ensures
        r == magnitude_decimal(valor(ds@), e as int),
{
    let ghost d = valor(ds@);
    let mut v = ds;
    aparar_zeros(&mut v);
    if v.len() == 0 {
        proof {
            lemma_decimal_zero(e as int);
        }
        return 0;
    }
    let topo: i128 = v.len() as i128 + e;
    proof {
        lemma_topo(v@);
    }
    if topo > 320 {
        proof {
            lemma_decimal_infinito(d, (v@.len() - 1) as nat, e as int);
        }
        return INFINITO;
    }
    if topo < -330 {
        proof {
            lemma_decimal_nulo(d, v@.len(), e as int);
        }
        return 0;
    }
    if e >= 0 {
        let mut c = deslocar(&v, e as usize);
        aparar_zeros(&mut c);
        proof {
            lemma_dez_soma(v@.len(), e as nat);
            if c@.len() > 321 {
                lemma_topo(c@);
                lemma_dez_monotona(topo as nat, (c@.len() - 1) as nat);
                lemma_dez_positivo(e as nat);
                assert(d * dez(e as nat) < dez(v@.len()) * dez(e as nat)) by (nonlinear_arith)
                    requires
                        d < dez(v@.len()),
                        dez(e as nat) > 0,
                ;
            }
        }
        return magnitude_da_lista(c, 0);
    }
    magnitude_da_lista(v, (-e) as u128)
}

proof fn lemma_natural_concatenado(a: Seq<char>, b: Seq<char>)
    ensures
        natural_de(a + b) == natural_de(a) * dez(b.len()) + natural_de(b),
    decreases b.len(),
{
    if b.len() == 0 {
        assert(a + b =~= a);
        assert(natural_de(a) * 1 == natural_de(a));
    } else {
        lemma_natural_concatenado(a, b.drop_last());
        assert((a + b).drop_last() =~= a + b.drop_last());
        let x = natural_de(a);
        let e = dez((b.len() - 1) as nat);
        assert(10 * (x * e) == x * (10 * e)) by (nonlinear_arith);
    }
}

/// O começo de `n` algarismos é o mais longo possível.
proof fn lemma_algarismos_iniciais(s: Seq<char>, n: nat)
    requires
        n <= s.len(),
        forall|i: int| 0 <= i < n ==> eh_algarismo(s[i]),
        n == s.len() || !eh_algarismo(s[n as int]),
    ensures
        quantos_algarismos(s) == n,
    decreases n,
{
    if n > 0 {
        let t = s.drop_first();
        assert forall|i: int| 0 <= i < n - 1 implies eh_algarismo(t[i]) by {
            assert(eh_algarismo(s[i + 1]));
        }
        lemma_algarismos_iniciais(t, (n - 1) as nat);
    }
}

/// Onde acabam os algarismos que começam em `de`.
fn fim_dos_algarismos(cs: &Vec<char>, de: usize) -> (r: usize)
    requires
        de <= cs@.len(),
    ensures
        de <= r <= cs@.len(),
        r - de == quantos_algarismos(cs@.skip(de as int)),
        forall|i: int| de <= i < r ==> eh_algarismo(#[trigger] cs@[i]),
{
    let mut i: usize = de;
    while i < cs.len() && '0' <= cs[i] && cs[i] <= '9'
        invariant
            de <= i <= cs@.len(),
            forall|j: int| de <= j < i ==> eh_algarismo(#[trigger] cs@[j]),
        decreases cs@.len() - i,
    {
        i = i + 1;
    }
    proof {
        let s = cs@.skip(de as int);
        assert forall|j: int| 0 <= j < i - de implies eh_algarismo(s[j]) by {
            assert(eh_algarismo(cs@[de + j]));
        }
        lemma_algarismos_iniciais(s, (i - de) as nat);
    }
    i
}

/// Acrescenta à lista, em ordem, os algarismos escritos de `de` a `ate`.
fn empilhar(cs: &Vec<char>, de: usize, ate: usize, ds: &mut Vec<u8>, Ghost(fim): Ghost<Seq<char>>)
    requires
        de <= ate <= cs@.len(),
        forall|i: int| de <= i < ate ==> eh_algarismo(#[trigger] cs@[i]),
        validos(old(ds)@),
        old(ds)@.len() == fim.len(),
        valor(old(ds)@) == natural_de(fim),
    ensures
        validos(final(ds)@),
        final(ds)@.len() == (ate - de) + fim.len(),
        valor(final(ds)@) == natural_de(cs@.subrange(de as int, ate as int) + fim),
{
    let mut i: usize = ate;
    proof {
        assert(cs@.subrange(ate as int, ate as int) + fim =~= fim);
    }
    while i > de
        invariant
            de <= i <= ate <= cs@.len(),
            forall|j: int| de <= j < ate ==> eh_algarismo(#[trigger] cs@[j]),
            validos(ds@),
            ds@.len() == (ate - i) + fim.len(),
            valor(ds@) == natural_de(cs@.subrange(i as int, ate as int) + fim),
        decreases i,
    {
        i = i - 1;
        let d: u8 = (cs[i] as u32 - 48) as u8;
        proof {
            let t = cs@.subrange(i + 1, ate as int) + fim;
            let c = seq![cs@[i as int]];
            assert(cs@.subrange(i as int, ate as int) + fim =~= c + t);
            lemma_natural_concatenado(c, t);
            assert(c.drop_last() =~= Seq::empty());
            assert(natural_de(c.drop_last()) == 0);
            assert(c.last() == cs@[i as int]);
            assert(natural_de(c) == d);
            lemma_valor_empilhado(ds@, d);
            assert(dez(t.len()) * d == d * dez(t.len())) by (nonlinear_arith);
        }
        ds.push(d);
    }
}

/// O natural escrito de `de` a `ate`, ou `None` a partir de 2^88.
fn expoente(cs: &Vec<char>, de: usize, ate: usize) -> (r: Option<i128>)
    requires
        de <= ate <= cs@.len(),
        forall|i: int| de <= i < ate ==> eh_algarismo(#[trigger] cs@[i]),
    ensures
        ({
            let n = natural_de(cs@.subrange(de as int, ate as int));
            match r {
                Some(x) => x == n && x < 0x100_0000_0000_0000_0000_0000,
                None => n >= 0x100_0000_0000_0000_0000_0000,
            }
        }),
{
    let mut i: usize = de;
    let mut n: i128 = 0;
    proof {
        assert(cs@.subrange(de as int, de as int) =~= Seq::empty());
    }
    while i < ate
        invariant
            de <= i <= ate <= cs@.len(),
            forall|j: int| de <= j < ate ==> eh_algarismo(#[trigger] cs@[j]),
            0 <= n < 0x100_0000_0000_0000_0000_0000,
            n == natural_de(cs@.subrange(de as int, i as int)),
        decreases ate - i,
    {
        let d: i128 = cs[i] as i128 - 48;
        n = 10 * n + d;
        i = i + 1;
        proof {
            assert(cs@.subrange(de as int, i as int).drop_last() =~= cs@.subrange(
                de as int,
                i - 1,
            ));
        }
        if n >= 0x100_0000_0000_0000_0000_0000 {
            proof {
                let a = cs@.subrange(de as int, i as int);
                let b = cs@.subrange(i as int, ate as int);
                assert(cs@.subrange(de as int, ate as int) =~= a + b);
                lemma_natural_concatenado(a, b);
                lemma_dez_positivo(b.len());
                assert(natural_de(a) * dez(b.len()) >= natural_de(a)) by (nonlinear_arith)
                    requires
                        dez(b.len()) >= 1,
                        natural_de(a) >= 0,
                ;
            }
            return None;
        }
    }
    Some(n)
}

/// Se o texto a partir de `de` é `palavra`, sem distinguir maiúsculas.
fn eh_palavra(cs: &Vec<char>, de: usize, palavra: &str) -> (r: bool)
    requires
        de <= cs@.len(),
    ensures
        r == (minusculas(cs@.skip(de as int)) == palavra@),
{
    let p = caracteres(palavra);
    let ghost m = minusculas(cs@.skip(de as int));
    if p.len() != cs.len() - de {
        proof {
            assert(m.len() != palavra@.len());
        }
        return false;
    }
    let total: usize = cs.len();
    let mut i: usize = 0;
    while i < p.len()
        invariant
            total == cs@.len(),
            i <= p@.len(),
            p@ == palavra@,
            de <= cs@.len(),
            p@.len() == cs@.len() - de,
            m == minusculas(cs@.skip(de as int)),
            forall|j: int| 0 <= j < i ==> m[j] == p@[j],
        decreases p@.len() - i,
    {
        assert(m[i as int] == minuscula(cs@[de + i]));
        if minusculizar(cs[de + i]) != p[i] {
            return false;
        }
        i = i + 1;
    }
    proof {
        assert(m =~= palavra@);
    }
    true
}

/// O caractere em minúscula, se é uma letra ASCII.
pub fn minusculizar(c: char) -> (r: char)
    ensures
        r == minuscula(c),
{
    if 'A' <= c && c <= 'Z' {
        (c as u8 + 32) as char
    } else {
        c
    }
}

/// Lê o expoente a partir de `j` e conclui o numeral de algarismos `ds`, `f` deles
/// após o ponto.
fn concluir(cs: &Vec<char>, j: usize, ds: Vec<u8>, f: usize) -> (r: Option<u64>)
    requires
        j <= cs@.len(),
        validos(ds@),
    ensures
        match expoente_lido(cs@.skip(j as int)) {
            Some(e) => r == Some(magnitude_decimal(valor(ds@), e - f) as u64)
                && magnitude_decimal(valor(ds@), e - f) <= INFINITO,
            None => r is None,
        },
{
    let ghost u = cs@.skip(j as int);
    let ghost d = valor(ds@);
    if j == cs.len() {
        return Some(magnitude_do_numeral(ds, -(f as i128)));
    }
    proof {
        assert(u[0] == cs@[j as int]);
    }
    if cs[j] != 'e' && cs[j] != 'E' {
        return None;
    }
    let ghost w = u.skip(1);
    proof {
        assert(w =~= cs@.skip(j + 1));
    }
    let com_sinal = j + 1 < cs.len() && (cs[j + 1] == '-' || cs[j + 1] == '+');
    let neg = com_sinal && cs[j + 1] == '-';
    let k: usize = if com_sinal {
        j + 2
    } else {
        j + 1
    };
    let ghost v = sem_sinal_inicial(w).1;
    proof {
        assert(v =~= cs@.skip(k as int));
    }
    let fim = fim_dos_algarismos(cs, k);
    if k == cs.len() || fim != cs.len() {
        return None;
    }
    proof {
        assert(cs@.subrange(k as int, fim as int) =~= v);
    }
    match expoente(cs, k, fim) {
        Some(x) => {
            let e: i128 = if neg {
                -x - f as i128
            } else {
                x - f as i128
            };
            Some(magnitude_do_numeral(ds, e))
        },
        None => {
            let ghost n = natural_de(v) as int;
            let ghost e = if neg {
                -n - f
            } else {
                n - f
            };
            let mut ds = ds;
            aparar_zeros(&mut ds);
            if ds.len() == 0 {
                proof {
                    lemma_decimal_zero(e);
                }
                return Some(0);
            }
            proof {
                lemma_topo(ds@);
            }
            if neg {
                proof {
                    lemma_decimal_nulo(d, ds@.len(), e);
                }
                Some(0)
            } else {
                proof {
                    lemma_decimal_infinito(d, (ds@.len() - 1) as nat, e);
                }
                Some(INFINITO)
            }
        },
    }
}

/// Lê um numeral decimal sem sinal a partir de `de`; devolve a sua magnitude.
fn ler_numeral(cs: &Vec<char>, de: usize) -> (r: Option<u64>)
    requires
        de <= cs@.len(),
    ensures
        match numeral_lido(cs@.skip(de as int)) {
            Some((d, e)) => r == Some(magnitude_decimal(d, e) as u64) && magnitude_decimal(d, e)
                <= INFINITO,
            None => r is None,
        },
{
    let ghost t = cs@.skip(de as int);
    let i = fim_dos_algarismos(cs, de);
    let ghost n = i - de;
    let mut ds: Vec<u8> = Vec::new();
    if i < cs.len() && cs[i] == '.' {
        proof {
            assert(t.skip(n + 1) =~= cs@.skip(i + 1));
        }
        let j = fim_dos_algarismos(cs, i + 1);
        let f: usize = j - i - 1;
        let ghost frac = t.subrange(n + 1, n + 1 + f);
        if i == de && f == 0 {
            return None;
        }
        empilhar(cs, i + 1, j, &mut ds, Ghost(Seq::empty()));
        proof {
            assert(cs@.subrange(i + 1, j as int) + Seq::<char>::empty() =~= frac);
        }
        empilhar(cs, de, i, &mut ds, Ghost(frac));
        proof {
            assert(cs@.subrange(de as int, i as int) =~= t.take(n));
            assert(t.skip(n + 1 + f) =~= cs@.skip(j as int));
        }
        concluir(cs, j, ds, f)
    } else {
        if i == de {
            return None;
        }
        empilhar(cs, de, i, &mut ds, Ghost(Seq::empty()));
        proof {
            assert(cs@.subrange(de as int, i as int) =~= t.take(n));
            assert(t.skip(n) =~= cs@.skip(i as int));
        }
        concluir(cs, i, ds, 0)
    }
}

/// Lê um número.
pub fn ler(cs: &Vec<char>) -> (r: Option<Real>)
    ensures
        r == lido(cs@),
{
    let com_sinal_inicial = cs.len() > 0 && (cs[0] == '-' || cs[0] == '+');
    let neg = com_sinal_inicial && cs[0] == '-';
    let de: usize = if com_sinal_inicial {
        1
    } else {
        0
    };
    proof {
        assert(sem_sinal_inicial(cs@).1 =~= cs@.skip(de as int));
    }
    if eh_palavra(cs, de, "inf") || eh_palavra(cs, de, "infinity") {
        return Some(compor(neg, INFINITO));
    }
    if eh_palavra(cs, de, "nan") {
        return Some(Real { bits: NAO_NUMERO });
    }
    match ler_numeral(cs, de) {
        Some(m) => Some(compor(neg, m)),
        None => None,
    }
}

} // verus!
