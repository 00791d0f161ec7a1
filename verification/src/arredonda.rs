//! Arredondamento para o número binário de 64 bits mais próximo.
//!
//! Um valor não negativo finito é um múltiplo inteiro de 2^-1074; todas as
//! frações deste módulo estão nessa unidade. A magnitude de um número é o seu
//! padrão de bits sem o sinal, que cresce com o valor.

use vstd::arithmetic::div_mod::{lemma_fundamental_div_mod, lemma_fundamental_div_mod_converse};
use vstd::arithmetic::power2::{
    lemma2_to64, lemma2_to64_rest, lemma_pow2_adds, lemma_pow2_pos, lemma_pow2_strictly_increases,
    lemma_pow2_unfold, pow2,
};
use vstd::prelude::*;

verus! {

/// 2^52: o bit implícito do significando e o passo do campo de expoente.
pub const PASSO: u64 = 0x10_0000_0000_0000;

/// Magnitude do infinito.
pub const INFINITO: u64 = 0x7ff0_0000_0000_0000;

/// `num / den` arredondado ao inteiro mais próximo, com empate para o par.
pub open spec fn meio_par(num: nat, den: nat) -> nat {
    let q = num / den;
    let r = num % den;
    if 2 * r > den || (2 * r == den && q % 2 == 1) {
        q + 1
    } else {
        q
    }
}

/// Quantidade de bits de `n`.
pub open spec fn bits(n: nat) -> nat
    decreases n,
{
    if n == 0 {
        0
    } else {
        1 + bits(n / 2)
    }
}

/// Quantos bits de `num / den` ficam abaixo dos 53 de um significando.
pub open spec fn excesso(num: nat, den: nat) -> nat {
    let b = bits(num / den);
    if b > 53 {
        (b - 53) as nat
    } else {
        0
    }
}

/// Magnitude do número mais próximo de `num / den`: 53 bits de significando,
/// empate para o par, infinito a partir de 2^1024.
pub open spec fn magnitude(num: nat, den: nat) -> nat {
    let k = excesso(num, den);
    let m = k * PASSO as nat + meio_par(num, den * pow2(k));
    if m < INFINITO {
        m
    } else {
        INFINITO as nat
    }
}

pub proof fn lemma_meio_par_escala(num: nat, den: nat, c: nat)
    requires
        den > 0,
        c > 0,
    ensures
        den * c > 0,
        (num * c) / (den * c) == num / den,
        meio_par(num * c, den * c) == meio_par(num, den),
{
    let q = num as int / den as int;
    let r = num as int % den as int;
    lemma_fundamental_div_mod(num as int, den as int);
    assert(den * c > 0) by (nonlinear_arith)
        requires
            den > 0,
            c > 0,
    ;
    assert(num * c == q * (den * c) + r * c) by (nonlinear_arith)
        requires
            num == den * q + r,
    ;
    assert(0 <= r * c < den * c) by (nonlinear_arith)
        requires
            0 <= r < den,
            c > 0,
    ;
    lemma_fundamental_div_mod_converse((num * c) as int, (den * c) as int, q, r * c);
    assert(2 * (r * c) > den * c <==> 2 * r > den) by (nonlinear_arith)
        requires
            c > 0,
    ;
    assert(2 * (r * c) == den * c <==> 2 * r == den) by (nonlinear_arith)
        requires
            c > 0,
    ;
}

pub proof fn lemma_bits_intervalo(n: nat, b: nat)
    requires
        b > 0,
        pow2((b - 1) as nat) <= n < pow2(b),
    ensures
        bits(n) == b,
    decreases b,
{
    lemma_pow2_pos((b - 1) as nat);
    lemma_pow2_unfold(b);
    if b == 1 {
        lemma2_to64();
        assert(n == 1);
        assert(bits(0) == 0);
        assert(bits(1) == 1 + bits(1nat / 2));
    } else {
        lemma_pow2_unfold((b - 1) as nat);
        lemma_bits_intervalo(n / 2, (b - 1) as nat);
    }
}

pub proof fn lemma_bits_limites(n: nat)
    requires
        n > 0,
    ensures
        bits(n) > 0,
        pow2((bits(n) - 1) as nat) <= n < pow2(bits(n)),
    decreases n,
{
    lemma2_to64();
    if n == 1 {
        assert(bits(0) == 0);
        assert(bits(1) == 1 + bits(1nat / 2));
    } else {
        lemma_bits_limites(n / 2);
        lemma_pow2_unfold(bits(n));
        lemma_pow2_unfold(bits(n / 2));
    }
}

/// `P` e `Q` com `num / den == (P / Q) * 2^s`.
pub open spec fn escalar_num(num: nat, s: int) -> nat {
    if s < 0 {
        num * pow2((-s) as nat)
    } else {
        num
    }
}

pub open spec fn escalar_den(den: nat, s: int) -> nat {
    if s < 0 {
        den
    } else {
        den * pow2(s as nat)
    }
}

/// `n` é a parte inteira de `(num / den) / 2^s`, e `resto` diz se sobra fração.
pub open spec fn piso(num: nat, den: nat, n: nat, resto: bool, s: int) -> bool {
    let p = escalar_num(num, s);
    let q = escalar_den(den, s);
    &&& n * q <= p < (n + 1) * q
    &&& resto <==> p != n * q
}

/// A parte inteira de uma fração determina a quantidade de bits da fração escalada.
proof fn lemma_bits_do_piso(num: nat, den: nat, n: nat, resto: bool, s: int)
    requires
        den > 0,
        n > 0,
        piso(num, den, n, resto, s),
    ensures
        bits(num / den) == if bits(n) + s > 0 { (bits(n) + s) as nat } else { 0 },
{
    let l = bits(n);
    let p = escalar_num(num, s);
    let q = escalar_den(den, s);
    lemma_bits_limites(n);
    let a = pow2((l - 1) as nat);
    let b = pow2(l);
    assert(a * q <= p) by (nonlinear_arith)
        requires
            a <= n,
            n * q <= p,
            q >= 0,
    ;
    assert(p < b * q) by (nonlinear_arith)
        requires
            n + 1 <= b,
            p < (n + 1) * q,
            q >= 0,
    ;
    if s >= 0 {
        let e = pow2(s as nat);
        lemma_pow2_adds((l - 1) as nat, s as nat);
        lemma_pow2_adds(l, s as nat);
        let lo = pow2((l - 1 + s) as nat);
        let hi = pow2((l + s) as nat);
        assert(lo * den <= num) by (nonlinear_arith)
            requires
                lo == a * e,
                a * (den * e) <= num,
        ;
        assert(num < hi * den) by (nonlinear_arith)
            requires
                hi == b * e,
                num < b * (den * e),
        ;
        lemma_quociente_entre(num, den, lo, hi);
        lemma_bits_intervalo(num / den, (l + s) as nat);
    } else {
        let t = (-s) as nat;
        let e = pow2(t);
        lemma_pow2_pos(t);
        if l + s > 0 {
            lemma_pow2_adds((l - 1 + s) as nat, t);
            lemma_pow2_adds((l + s) as nat, t);
            let lo = pow2((l - 1 + s) as nat);
            let hi = pow2((l + s) as nat);
            assert(lo * den <= num) by (nonlinear_arith)
                requires
                    a == lo * e,
                    e > 0,
                    a * den <= num * e,
            ;
            assert(num < hi * den) by (nonlinear_arith)
                requires
                    b == hi * e,
                    e > 0,
                    num * e < b * den,
            ;
            lemma_quociente_entre(num, den, lo, hi);
            lemma_bits_intervalo(num / den, (l + s) as nat);
        } else {
            lemma_pow2_monotona(l, t);
            assert(num < den) by (nonlinear_arith)
                requires
                    num * e < b * den,
                    b <= e,
                    e > 0,
                    den > 0,
            ;
            assert(num / den == 0) by (nonlinear_arith)
                requires
                    num < den,
            ;
        }
    }
}

pub proof fn lemma_pow2_monotona(a: nat, b: nat)
    requires
        a <= b,
    ensures
        pow2(a) <= pow2(b),
{
    if a < b {
        lemma_pow2_strictly_increases(a, b);
    }
}

proof fn lemma_quociente_entre(num: nat, den: nat, lo: nat, hi: nat)
    requires
        den > 0,
        lo * den <= num < hi * den,
    ensures
        lo <= num / den < hi,
{
    let q = num as int / den as int;
    lemma_fundamental_div_mod(num as int, den as int);
    let r = num as int % den as int;
    assert(q >= lo) by (nonlinear_arith)
        requires
            lo * den <= den * q + r,
            r < den,
            den > 0,
    ;
    assert(q < hi) by (nonlinear_arith)
        requires
            den * q + r < hi * den,
            r >= 0,
            den > 0,
    ;
}

/// Arredondamento de `p / (q * 2 * metade)` a partir da parte inteira de `p / q`.
proof fn lemma_meio_par_do_piso(p: nat, q: nat, n: nat, resto: bool, metade: nat)
    requires
        q > 0,
        metade > 0,
        n * q <= p < (n + 1) * q,
        resto <==> p != n * q,
    ensures
        ({
            let h = n / metade;
            let l = n % metade;
            let sobe = h % 2 == 1 && (l > 0 || resto || (h / 2) % 2 == 1);
            meio_par(p, q * (2 * metade)) == if sobe { h / 2 + 1 } else { h / 2 }
        }),
{
    let h = n as int / metade as int;
    let l = n as int % metade as int;
    lemma_fundamental_div_mod(n as int, metade as int);
    let c = h / 2;
    let bit = h % 2;
    let rho = p - n * q;
    let den = q * (2 * metade);
    let r = (bit * metade + l) * q + rho;
    assert(p == c * den + r) by (nonlinear_arith)
        requires
            n == metade * h + l,
            h == 2 * c + bit,
            den == q * (2 * metade),
            r == (bit * metade + l) * q + rho,
            rho == p - n * q,
    ;
    assert(den > 0) by (nonlinear_arith)
        requires
            q > 0,
            metade > 0,
            den == q * (2 * metade),
    ;
    let g = metade * q;
    assert(den == 2 * g) by (nonlinear_arith)
        requires
            den == q * (2 * metade),
            g == metade * q,
    ;
    let lq = l * q;
    assert(lq >= 0 && lq + q <= g && (l > 0 ==> lq >= 1)) by (nonlinear_arith)
        requires
            lq == l * q,
            g == metade * q,
            0 <= l < metade,
            q > 0,
    ;
    assert(r == bit * g + lq + rho) by (nonlinear_arith)
        requires
            r == (bit * metade + l) * q + rho,
            g == metade * q,
            lq == l * q,
    ;
    assert(0 <= rho < q) by (nonlinear_arith)
        requires
            rho == p - n * q,
            n * q <= p < (n + 1) * q,
    ;
    assert(bit == 0 || bit == 1);
    assert(l == 0 ==> lq == 0) by (nonlinear_arith)
        requires
            lq == l * q,
    ;
    if bit == 0 {
        assert(r == lq + rho) by (nonlinear_arith)
            requires
                r == bit * g + lq + rho,
                bit == 0,
        ;
        assert(0 <= r < g);
    } else {
        assert(r == g + lq + rho) by (nonlinear_arith)
            requires
                r == bit * g + lq + rho,
                bit == 1,
        ;
    }
    lemma_fundamental_div_mod_converse(p as int, den as int, c, r);
}

/// 2^e, para expoentes que cabem em 128 bits.
pub(crate) fn dois_a(e: u32) -> (r: u128)
    requires
        e < 128,
    ensures
        r == pow2(e as nat),
{
    let mut r: u128 = 1;
    let mut i: u32 = 0;
    proof {
        lemma2_to64();
    }
    while i < e
        invariant
            i <= e < 128,
            r == pow2(i as nat),
        decreases e - i,
    {
        proof {
            lemma_pow2_unfold((i + 1) as nat);
            lemma_pow2_unfold(128);
            lemma_pow2_monotona((i + 1) as nat, 127);
            lemma_pow2_127();
        }
        r = 2 * r;
        i = i + 1;
    }
    r
}

pub proof fn lemma_pow2_127()
    ensures
        pow2(127) == 0x8000_0000_0000_0000_0000_0000_0000_0000,
{
    lemma2_to64();
    lemma2_to64_rest();
    lemma_pow2_adds(64, 63);
    assert(pow2(64) * pow2(63) == 0x8000_0000_0000_0000_0000_0000_0000_0000) by (nonlinear_arith)
        requires
            pow2(64) == 0x1_0000_0000_0000_0000,
            pow2(63) == 0x8000_0000_0000_0000,
    ;
}

/// Quantidade de bits de `n`.
pub(crate) fn contar_bits(n: u128) -> (r: u32)
    ensures
        r == bits(n as nat),
        r <= 128,
{
    let mut resta: u128 = n;
    let mut r: u32 = 0;
    proof {
        if n > 0 {
            lemma_bits_limites(n as nat);
            lemma_pow2_127();
            if bits(n as nat) > 128 {
                lemma_pow2_unfold(128);
                lemma_pow2_monotona(128, (bits(n as nat) - 1) as nat);
            }
        }
    }
    while resta > 0
        invariant
            r + bits(resta as nat) == bits(n as nat),
            bits(n as nat) <= 128,
        decreases resta,
    {
        resta = resta / 2;
        r = r + 1;
    }
    r
}

/// Magnitude do número mais próximo de `num / den`, conhecida a parte inteira de
/// `(num / den) / 2^s` com pelo menos 54 bits.
pub(crate) fn arredondar(n: u128, resto: bool, s: i32, Ghost(num): Ghost<nat>, Ghost(den): Ghost<nat>) -> (r:
    u64)
    requires
        den > 0,
        n >= 0x20_0000_0000_0000,
        -10000 <= s <= 10000,
        piso(num, den, n as nat, resto, s as int),
    ensures
        r == magnitude(num, den),
{
    let l = contar_bits(n);
    proof {
        lemma_bits_do_piso(num, den, n as nat, resto, s as int);
        lemma_bits_limites(n as nat);
        lemma2_to64_rest();
        if l < 54 {
            lemma_pow2_monotona(l as nat, 53);
        }
    }
    let k: i32 = if l as i32 + s > 53 {
        l as i32 + s - 53
    } else {
        0
    };
    assert(k == excesso(num, den));
    let j: i32 = k - s;
    assert(j >= 1);
    let ghost p = escalar_num(num, s as int);
    let ghost q = escalar_den(den, s as int);
    let ghost metade = pow2((j - 1) as nat);
    proof {
        lemma_pow2_pos((j - 1) as nat);
        lemma_pow2_unfold(j as nat);
        lemma_pow2_pos(k as nat);
        // O denominador da unidade arredondada, nas duas escalas.
        if s >= 0 {
            lemma_pow2_pos(s as nat);
            lemma_pow2_adds(s as nat, j as nat);
            assert(q * (2 * metade) == den * pow2(k as nat)) by (nonlinear_arith)
                requires
                    q == den * pow2(s as nat),
                    2 * metade == pow2(j as nat),
                    pow2(s as nat) * pow2(j as nat) == pow2(k as nat),
            ;
            assert(q > 0) by (nonlinear_arith)
                requires
                    q == den * pow2(s as nat),
                    den > 0,
                    pow2(s as nat) > 0,
            ;
        } else {
            let t = (-s) as nat;
            lemma_pow2_pos(t);
            lemma_pow2_adds(k as nat, t);
            let dk = den * pow2(k as nat);
            assert(dk > 0) by (nonlinear_arith)
                requires
                    dk == den * pow2(k as nat),
                    den > 0,
                    pow2(k as nat) > 0,
            ;
            lemma_meio_par_escala(num, dk, pow2(t));
            assert(q * (2 * metade) == dk * pow2(t)) by (nonlinear_arith)
                requires
                    q == den,
                    2 * metade == pow2(j as nat),
                    pow2(k as nat) * pow2(t) == pow2(j as nat),
                    dk == den * pow2(k as nat),
            ;
        }
        assert(meio_par(p, q * (2 * metade)) == meio_par(num, den * pow2(k as nat)));
        lemma_meio_par_do_piso(p, q, n as nat, resto, metade);
    }
    if j > 128 {
        proof {
            lemma_pow2_127();
            lemma_pow2_unfold(128);
            lemma_pow2_monotona(128, (j - 1) as nat);
            assert(n as nat / metade == 0) by (nonlinear_arith)
                requires
                    n < metade,
            ;
            assert(k == 0);
        }
        return 0;
    }
    let meio = dois_a((j - 1) as u32);
    let h: u128 = n / meio;
    let baixo: u128 = n % meio;
    let sobe = h % 2 == 1 && (baixo > 0 || resto || (h / 2) % 2 == 1);
    proof {
        // Sobram no máximo 53 bits acima da unidade arredondada.
        lemma_pow2_adds(54, (j - 1) as nat);
        lemma_pow2_monotona(l as nat, (53 + j) as nat);
        assert(h < pow2(54)) by (nonlinear_arith)
            requires
                n < pow2(54) * metade,
                h == n / meio,
                meio == metade,
                metade > 0,
        ;
        if k > 0 {
            lemma_pow2_adds(53, (j - 1) as nat);
            assert(h >= pow2(53)) by (nonlinear_arith)
                requires
                    n >= pow2(53) * metade,
                    h == n / meio,
                    meio == metade,
                    metade > 0,
            ;
        }
    }
    if k >= 2046 {
        return INFINITO;
    }
    let arredondado: u64 = if sobe {
        (h / 2) as u64 + 1
    } else {
        (h / 2) as u64
    };
    let m: u64 = k as u64 * PASSO + arredondado;
    if m < INFINITO {
        m
    } else {
        INFINITO
    }
}

/// Abaixo de meia unidade o número mais próximo é zero.
pub proof fn lemma_magnitude_nula(num: nat, den: nat)
    requires
        2 * num < den,
    ensures
        magnitude(num, den) == 0,
{
    lemma2_to64();
    assert(num / den == 0) by (nonlinear_arith)
        requires
            num < den,
    ;
    assert(num % den == num) by (nonlinear_arith)
        requires
            num < den,
    ;
    assert(den * 1 == den);
}

} // verus!
