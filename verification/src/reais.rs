//! Números reais de 64 bits em ponto flutuante binário, com aritmética inteira.
//!
//! Um [`Real`] é o padrão de bits de um número IEEE 754 de precisão dupla. Cada
//! operação devolve o número mais próximo do resultado exato, com empate para o par.

use vstd::arithmetic::div_mod::{
    lemma_fundamental_div_mod, lemma_fundamental_div_mod_converse,
};
use vstd::arithmetic::power2::{
    lemma2_to64, lemma2_to64_rest, lemma_pow2_adds, lemma_pow2_pos, lemma_pow2_unfold, pow2,
};
use vstd::prelude::*;

use crate::arredonda::{
    arredondar, bits, dois_a, escalar_den, escalar_num, excesso, lemma_bits_intervalo,
    lemma_magnitude_nula, lemma_meio_par_escala, lemma_pow2_monotona, magnitude, meio_par, piso,
    INFINITO, PASSO,
};

verus! {

/// O bit de sinal.
pub const SINAL: u64 = 0x8000_0000_0000_0000;

/// O padrão devolvido quando não há número.
pub const NAO_NUMERO: u64 = 0x7ff8_0000_0000_0000;

/// Expoente da unidade: o menor número positivo é 2^-1074.
pub const UNIDADE: u32 = 1074;

/// Um número de ponto flutuante de 64 bits.
#[derive(Clone, Copy, Debug, PartialEq, Eq, Structural)]
pub struct Real {
    pub bits: u64,
}

/// Significando de uma magnitude finita.
pub open spec fn significando(mag: nat) -> nat {
    if mag < PASSO {
        mag
    } else {
        mag % (PASSO as nat) + PASSO as nat
    }
}

/// Expoente de uma magnitude finita, contado a partir da unidade.
pub open spec fn escala(mag: nat) -> nat {
    if mag < PASSO {
        0
    } else {
        (mag / (PASSO as nat) - 1) as nat
    }
}

/// Valor de uma magnitude finita, em unidades de 2^-1074.
pub open spec fn inteiro(mag: nat) -> nat {
    significando(mag) * pow2(escala(mag))
}

/// 2^1074: o número um, na unidade de [`inteiro`].
pub open spec fn um() -> nat {
    pow2(1074)
}

/// O número de sinal e magnitude dados.
pub open spec fn com_sinal(negativo: bool, mag: nat) -> Real {
    Real { bits: if negativo { (mag + SINAL) as u64 } else { mag as u64 } }
}

impl Real {
    pub open spec fn negativo(self) -> bool {
        self.bits >= SINAL
    }

    /// O padrão de bits sem o sinal.
    pub open spec fn mag(self) -> nat {
        if self.bits >= SINAL {
            (self.bits - SINAL) as nat
        } else {
            self.bits as nat
        }
    }

    pub open spec fn nan(self) -> bool {
        self.mag() > INFINITO
    }

    pub open spec fn infinito(self) -> bool {
        self.mag() == INFINITO
    }

    pub open spec fn finito(self) -> bool {
        self.mag() < INFINITO
    }

    /// Valor de um número finito, em unidades de 2^-1074.
    pub open spec fn valor(self) -> int {
        if self.negativo() {
            -(inteiro(self.mag()) as int)
        } else {
            inteiro(self.mag()) as int
        }
    }

    /// Posição na reta; os dois zeros coincidem.
    pub open spec fn ordem(self) -> int {
        if self.negativo() {
            -(self.mag() as int)
        } else {
            self.mag() as int
        }
    }

    pub open spec fn produto(self, outro: Real) -> Real {
        let neg = self.negativo() != outro.negativo();
        if self.nan() || outro.nan() || (self.infinito() && outro.mag() == 0) || (outro.infinito()
            && self.mag() == 0) {
            Real { bits: NAO_NUMERO }
        } else if self.infinito() || outro.infinito() {
            com_sinal(neg, INFINITO as nat)
        } else {
            com_sinal(neg, magnitude(inteiro(self.mag()) * inteiro(outro.mag()), um()))
        }
    }

    pub open spec fn quociente(self, outro: Real) -> Real {
        let neg = self.negativo() != outro.negativo();
        if self.nan() || outro.nan() || (self.infinito() && outro.infinito()) || (self.mag() == 0
            && outro.mag() == 0) {
            Real { bits: NAO_NUMERO }
        } else if self.infinito() || outro.mag() == 0 {
            com_sinal(neg, INFINITO as nat)
        } else if outro.infinito() {
            com_sinal(neg, 0)
        } else {
            com_sinal(neg, magnitude(inteiro(self.mag()) * um(), inteiro(outro.mag())))
        }
    }

    pub open spec fn soma(self, outro: Real) -> Real {
        if self.nan() || outro.nan() || (self.infinito() && outro.infinito() && self.negativo()
            != outro.negativo()) {
            Real { bits: NAO_NUMERO }
        } else if self.infinito() {
            self
        } else if outro.infinito() {
            outro
        } else {
            let v = self.valor() + outro.valor();
            if v == 0 {
                com_sinal(self.negativo() && outro.negativo(), 0)
            } else if v < 0 {
                com_sinal(true, magnitude((-v) as nat, 1))
            } else {
                com_sinal(false, magnitude(v as nat, 1))
            }
        }
    }

    pub open spec fn oposto(self) -> Real {
        com_sinal(!self.negativo(), self.mag())
    }

    pub open spec fn diferenca(self, outro: Real) -> Real {
        self.soma(outro.oposto())
    }

    pub open spec fn absoluto(self) -> Real {
        com_sinal(false, self.mag())
    }

    pub open spec fn menor_ou_igual(self, outro: Real) -> bool {
        !self.nan() && !outro.nan() && self.ordem() <= outro.ordem()
    }

    pub open spec fn menor(self, outro: Real) -> bool {
        !self.nan() && !outro.nan() && self.ordem() < outro.ordem()
    }

    /// O maior dos dois; um que não é número cede ao outro.
    pub open spec fn maior_entre(self, outro: Real) -> Real {
        if self.nan() || self.menor(outro) {
            outro
        } else {
            self
        }
    }

    /// O número mais próximo do inteiro `n`.
    pub open spec fn do_inteiro(n: int) -> Real {
        if n < 0 {
            com_sinal(true, magnitude((-n) as nat * um(), 1))
        } else {
            com_sinal(false, magnitude(n as nat * um(), 1))
        }
    }
}

/// Multiplicar `n` por 2^c compensa descer a escala em `c`, quando não há fração.
proof fn lemma_piso_exato_escala(num: nat, den: nat, n: nat, s: int, c: nat)
    requires
        piso(num, den, n, false, s),
    ensures
        piso(num, den, n * pow2(c), false, s - c),
{
    let e = pow2(c);
    lemma_pow2_pos(c);
    let m = n * e;
    if s >= c {
        lemma_pow2_adds(c, (s - c) as nat);
        let f = pow2((s - c) as nat);
        let g = pow2(s as nat);
        assert(m * (den * f) == n * (den * g)) by (nonlinear_arith)
            requires
                m == n * e,
                e * f == g,
        ;
    } else if s >= 0 {
        lemma_pow2_adds(s as nat, (c - s) as nat);
        let f = pow2((c - s) as nat);
        let g = pow2(s as nat);
        assert(num * f == m * den) by (nonlinear_arith)
            requires
                m == n * e,
                num == n * (den * g),
                g * f == e,
        ;
    } else {
        lemma_pow2_adds(c, (-s) as nat);
        let f = pow2((c - s) as nat);
        let g = pow2((-s) as nat);
        assert(num * f == m * den) by (nonlinear_arith)
            requires
                m == n * e,
                num * g == n * den,
                e * g == f,
        ;
    }
    let q = escalar_den(den, s - c);
    let q0 = escalar_den(den, s);
    if s - c >= 0 {
        lemma_pow2_pos((s - c) as nat);
    }
    if s >= 0 {
        lemma_pow2_pos(s as nat);
    }
    // O denominador é positivo: `piso` não se sustenta de outro modo.
    assert(q0 > 0) by (nonlinear_arith)
        requires
            n * q0 < (n + 1) * q0,
    ;
    assert(den > 0) by (nonlinear_arith)
        requires
            q0 > 0,
            q0 == den || q0 == den * pow2(s as nat),
    ;
    assert(q > 0) by (nonlinear_arith)
        requires
            den > 0,
            q == den || (q == den * pow2((s - c) as nat) && pow2((s - c) as nat) > 0),
    ;
    assert(m * q < (m + 1) * q) by (nonlinear_arith)
        requires
            q > 0,
    ;
}

/// Magnitude de `num / den` quando é exatamente `n * 2^s`.
fn arredondar_exato(n: u128, s: i32, Ghost(num): Ghost<nat>, Ghost(den): Ghost<nat>) -> (r: u64)
    requires
        den > 0,
        n > 0,
        -9000 <= s <= 9000,
        piso(num, den, n as nat, false, s as int),
    ensures
        r == magnitude(num, den),
{
    if n >= 0x20_0000_0000_0000 {
        arredondar(n, false, s, Ghost(num), Ghost(den))
    } else {
        proof {
            lemma2_to64();
            lemma_piso_exato_escala(num, den, n as nat, s as int, 64);
        }
        arredondar(n * 0x1_0000_0000_0000_0000, false, s - 64, Ghost(num), Ghost(den))
    }
}

/// Significando e expoente de uma magnitude finita.
pub(crate) fn partes(mag: u64) -> (r: (u64, i32))
    requires
        mag < INFINITO,
    ensures
        r.0 == significando(mag as nat),
        r.1 == escala(mag as nat),
        r.0 < 0x20_0000_0000_0000,
        0 <= r.1 <= 2045,
        r.1 > 0 ==> r.0 >= PASSO,
        r.0 == 0 <==> mag == 0,
{
    if mag < PASSO {
        (mag, 0)
    } else {
        (mag % PASSO + PASSO, (mag / PASSO - 1) as i32)
    }
}

pub(crate) fn compor(negativo: bool, mag: u64) -> (r: Real)
    requires
        mag < SINAL,
    ensures
        r == com_sinal(negativo, mag as nat),
{
    if negativo {
        Real { bits: mag + SINAL }
    } else {
        Real { bits: mag }
    }
}

/// Um produto de significandos é exato: falta só somar os expoentes.
proof fn lemma_piso_produto(a: nat, x: nat, b: nat, y: nat, u: nat)
    ensures
        piso((a * pow2(x)) * (b * pow2(y)), pow2(u), a * b, false, x + y - u),
{
    let num = (a * pow2(x)) * (b * pow2(y));
    let n = a * b;
    let s = x + y - u;
    lemma_pow2_adds(x, y);
    let e = pow2(x + y);
    assert(num == n * e) by (nonlinear_arith)
        requires
            num == (a * pow2(x)) * (b * pow2(y)),
            n == a * b,
            pow2(x) * pow2(y) == e,
    ;
    lemma_pow2_pos(u);
    let q = escalar_den(pow2(u), s);
    let p = escalar_num(num, s);
    if s >= 0 {
        lemma_pow2_adds(u, s as nat);
        lemma_pow2_pos((x + y) as nat);
        assert(q == e);
    } else {
        lemma_pow2_adds(x + y, (-s) as nat);
        assert(p == n * pow2(u)) by (nonlinear_arith)
            requires
                p == num * pow2((-s) as nat),
                num == n * e,
                e * pow2((-s) as nat) == pow2(u),
        ;
    }
    assert(p == n * q);
    assert(q > 0);
    assert(n * q < (n + 1) * q) by (nonlinear_arith)
        requires
            q > 0,
    ;
}

/// Parte inteira da divisão de dois números, dado o quociente dos significandos
/// com o dividendo multiplicado por 2^z.
proof fn lemma_piso_quociente(a: nat, x: nat, b: nat, y: nat, z: nat, n: nat, r: nat, u: nat)
    requires
        b > 0,
        a * pow2(z) == n * b + r,
        r < b,
    ensures
        piso((a * pow2(x)) * pow2(u), b * pow2(y), n, r != 0, x + u - z - y),
{
    let num = (a * pow2(x)) * pow2(u);
    let den = b * pow2(y);
    let s = x + u - z - y;
    let p = escalar_num(num, s);
    let q = escalar_den(den, s);
    lemma_pow2_adds(x, u);
    let f = if s >= 0 { (s + y) as nat } else { y };
    lemma_pow2_pos(f);
    let e = pow2(f);
    if s >= 0 {
        lemma_pow2_adds(z, f);
        lemma_pow2_adds(s as nat, y);
        assert(p == (a * pow2(z)) * e) by (nonlinear_arith)
            requires
                p == (a * pow2(x)) * pow2(u),
                pow2(x) * pow2(u) == pow2(x + u),
                pow2(z) * e == pow2(x + u),
        ;
        assert(q == b * e) by (nonlinear_arith)
            requires
                q == (b * pow2(y)) * pow2(s as nat),
                pow2(s as nat) * pow2(y) == e,
        ;
    } else {
        let t = (-s) as nat;
        lemma_pow2_adds(z, y);
        lemma_pow2_adds(x + u, t);
        assert(p == (a * pow2(z)) * e) by (nonlinear_arith)
            requires
                p == ((a * pow2(x)) * pow2(u)) * pow2(t),
                pow2(x) * pow2(u) == pow2(x + u),
                pow2(x + u) * pow2(t) == pow2(z + y),
                pow2(z) * e == pow2(z + y),
        ;
    }
    assert(q == b * e);
    assert(p == n * q + r * e) by (nonlinear_arith)
        requires
            p == (a * pow2(z)) * e,
            a * pow2(z) == n * b + r,
            q == b * e,
    ;
    assert(0 <= r * e < q && (r != 0 ==> r * e > 0)) by (nonlinear_arith)
        requires
            q == b * e,
            r < b,
            e > 0,
    ;
    assert((n + 1) * q == n * q + q) by (nonlinear_arith);
}

/// Desloca um significando para ter exatamente 53 bits; devolve também o deslocamento.
fn normalizar(sig: u64) -> (r: (u64, u32))
    requires
        0 < sig < 0x20_0000_0000_0000,
    ensures
        PASSO <= r.0 < 0x20_0000_0000_0000,
        r.1 <= 52,
        r.0 == sig * pow2(r.1 as nat),
{
    let mut m: u64 = sig;
    let mut z: u32 = 0;
    proof {
        lemma2_to64();
    }
    while m < PASSO
        invariant
            0 < sig <= m < 0x20_0000_0000_0000,
            m == sig * pow2(z as nat),
            z <= 52,
        decreases 0x20_0000_0000_0000 - m,
    {
        proof {
            lemma2_to64_rest();
            if z >= 52 {
                lemma_pow2_monotona(52, z as nat);
                assert(m >= pow2(52)) by (nonlinear_arith)
                    requires
                        m == sig * pow2(z as nat),
                        sig >= 1,
                        pow2(z as nat) >= pow2(52),
                ;
            }
            lemma_pow2_unfold((z + 1) as nat);
            assert(2 * m == sig * pow2((z + 1) as nat)) by (nonlinear_arith)
                requires
                    m == sig * pow2(z as nat),
                    pow2((z + 1) as nat) == 2 * pow2(z as nat),
            ;
        }
        m = 2 * m;
        z = z + 1;
    }
    (m, z)
}

/// Só a magnitude zero vale zero.
pub proof fn lemma_inteiro_positivo(mag: nat)
    ensures
        inteiro(mag) == 0 <==> mag == 0,
{
    lemma_pow2_pos(escala(mag));
    assert(significando(mag) * pow2(escala(mag)) == 0 <==> significando(mag) == 0)
        by (nonlinear_arith)
        requires
            pow2(escala(mag)) > 0,
    ;
}

impl Real {
    /// Se não é número.
    pub fn eh_nan(self) -> (r: bool)
        ensures
            r == self.nan(),
    {
        self.magnitude() > INFINITO
    }

    pub fn magnitude(self) -> (r: u64)
        ensures
            r == self.mag(),
            r < SINAL,
    {
        if self.bits >= SINAL {
            self.bits - SINAL
        } else {
            self.bits
        }
    }

    /// Se o bit de sinal está ligado.
    pub fn eh_negativo(self) -> (r: bool)
        ensures
            r == self.negativo(),
    {
        self.bits >= SINAL
    }

    pub fn multiplicar(self, outro: Real) -> (r: Real)
        ensures
            r == self.produto(outro),
    {
        let a = self.magnitude();
        let b = outro.magnitude();
        let neg = self.eh_negativo() != outro.eh_negativo();
        if a > INFINITO || b > INFINITO || (a == INFINITO && b == 0) || (b == INFINITO && a == 0) {
            return Real { bits: NAO_NUMERO };
        }
        if a == INFINITO || b == INFINITO {
            return compor(neg, INFINITO);
        }
        let ghost num = inteiro(a as nat) * inteiro(b as nat);
        proof {
            lemma_pow2_pos(1074);
        }
        if a == 0 || b == 0 {
            proof {
                lemma_inteiro_positivo(a as nat);
                lemma_inteiro_positivo(b as nat);
                assert(num == 0) by (nonlinear_arith)
                    requires
                        num == inteiro(a as nat) * inteiro(b as nat),
                        inteiro(a as nat) == 0 || inteiro(b as nat) == 0,
                ;
                lemma_magnitude_nula(0, um());
            }
            return compor(neg, 0);
        }
        let (sa, ea) = partes(a);
        let (sb, eb) = partes(b);
        proof {
            lemma_piso_produto(sa as nat, ea as nat, sb as nat, eb as nat, 1074);
            assert(0 < sa * sb < 0x400_0000_0000_0000_0000_0000_0000) by (nonlinear_arith)
                requires
                    0 < sa < 0x20_0000_0000_0000,
                    0 < sb < 0x20_0000_0000_0000,
            ;
        }
        let m = arredondar_exato(sa as u128 * sb as u128, ea + eb - 1074, Ghost(num), Ghost(um()));
        compor(neg, m)
    }

    pub fn dividir(self, outro: Real) -> (r: Real)
        ensures
            r == self.quociente(outro),
    {
        let a = self.magnitude();
        let b = outro.magnitude();
        let neg = self.eh_negativo() != outro.eh_negativo();
        if a > INFINITO || b > INFINITO || (a == INFINITO && b == INFINITO) || (a == 0 && b == 0) {
            return Real { bits: NAO_NUMERO };
        }
        if a == INFINITO || b == 0 {
            return compor(neg, INFINITO);
        }
        if b == INFINITO {
            return compor(neg, 0);
        }
        let ghost num = inteiro(a as nat) * um();
        let ghost den = inteiro(b as nat);
        proof {
            lemma_inteiro_positivo(b as nat);
        }
        if a == 0 {
            proof {
                lemma_inteiro_positivo(a as nat);
                assert(0 * um() == 0);
                lemma_magnitude_nula(0, den);
            }
            return compor(neg, 0);
        }
        let (sa, ea) = partes(a);
        let (sb, eb) = partes(b);
        let (na, z) = normalizar(sa);
        let cheio: u128 = na as u128 * 0x1_0000_0000_0000_0000;
        let n: u128 = cheio / sb as u128;
        let resto: u128 = cheio % sb as u128;
        proof {
            lemma2_to64();
            lemma_pow2_adds(z as nat, 64);
            assert(cheio == sa * pow2((z + 64) as nat)) by (nonlinear_arith)
                requires
                    cheio == na * pow2(64),
                    na == sa * pow2(z as nat),
                    pow2(z as nat) * pow2(64) == pow2((z + 64) as nat),
            ;
            lemma_fundamental_div_mod(cheio as int, sb as int);
            assert(cheio == n * sb + resto) by (nonlinear_arith)
                requires
                    cheio == sb * n + resto,
            ;
            lemma_piso_quociente(
                sa as nat,
                ea as nat,
                sb as nat,
                eb as nat,
                (z + 64) as nat,
                n as nat,
                resto as nat,
                1074,
            );
            assert(n >= 0x20_0000_0000_0000) by (nonlinear_arith)
                requires
                    cheio == n * sb + resto,
                    resto < sb < 0x20_0000_0000_0000,
                    cheio >= 0x10_0000_0000_0000 * 0x1_0000_0000_0000_0000,
            ;
        }
        let m = arredondar(n, resto != 0, ea + 1074 - (z as i32 + 64) - eb, Ghost(num), Ghost(den));
        compor(neg, m)
    }

    /// Troca o sinal.
    pub fn negar(self) -> (r: Real)
        ensures
            r == self.oposto(),
    {
        compor(!self.eh_negativo(), self.magnitude())
    }

    /// Tira o sinal.
    pub fn sem_sinal(self) -> (r: Real)
        ensures
            r == self.absoluto(),
    {
        compor(false, self.magnitude())
    }

    /// Se é menor ou igual; falso quando um dos dois não é número.
    pub fn ate(self, outro: Real) -> (r: bool)
        ensures
            r == self.menor_ou_igual(outro),
    {
        if self.eh_nan() || outro.eh_nan() {
            return false;
        }
        let a = self.magnitude();
        let b = outro.magnitude();
        if self.eh_negativo() {
            if outro.eh_negativo() {
                a >= b
            } else {
                true
            }
        } else if outro.eh_negativo() {
            a == 0 && b == 0
        } else {
            a <= b
        }
    }

    /// Se é estritamente menor; falso quando um dos dois não é número.
    pub fn abaixo(self, outro: Real) -> (r: bool)
        ensures
            r == self.menor(outro),
    {
        if self.eh_nan() || outro.eh_nan() {
            return false;
        }
        !outro.ate(self)
    }

    /// O maior dos dois.
    pub fn maior(self, outro: Real) -> (r: Real)
        ensures
            r == self.maior_entre(outro),
    {
        if self.eh_nan() || self.abaixo(outro) {
            outro
        } else {
            self
        }
    }
}

/// Um acréscimo menor que um quarto da última casa não muda o número.
proof fn lemma_acrescimo_some(m: nat, e: nat, p: nat)
    requires
        PASSO <= m < 0x20_0000_0000_0000,
        e >= 2,
        p < pow2((e - 2) as nat),
        e * PASSO + m < INFINITO,
    ensures
        magnitude(m * pow2(e) + p, 1) == e * PASSO + m,
{
    let num = m * pow2(e) + p;
    let d = pow2(e);
    lemma2_to64_rest();
    lemma_pow2_unfold(e);
    lemma_pow2_unfold((e - 1) as nat);
    lemma_pow2_adds(52, e);
    lemma_pow2_adds(53, e);
    assert(pow2(52 + e) <= num < pow2(53 + e)) by (nonlinear_arith)
        requires
            num == m * d + p,
            0x10_0000_0000_0000 * d == pow2(52 + e),
            0x20_0000_0000_0000 * d == pow2(53 + e),
            0x10_0000_0000_0000 <= m < 0x20_0000_0000_0000,
            0 <= p < d,
    ;
    lemma_bits_intervalo(num, 53 + e);
    assert(num / 1 == num);
    assert(excesso(num, 1) == e);
    lemma_fundamental_div_mod_converse(num as int, d as int, m as int, p as int);
}

proof fn lemma_decrescimo_some(m: nat, e: nat, p: nat)
    requires
        PASSO <= m < 0x20_0000_0000_0000,
        e >= 2,
        0 < p < pow2((e - 2) as nat),
        e * PASSO + m < INFINITO,
    ensures
        p <= m * pow2(e),
        magnitude((m * pow2(e) - p) as nat, 1) == e * PASSO + m,
{
    let num = (m * pow2(e) - p) as nat;
    let d = pow2(e);
    lemma2_to64_rest();
    lemma_pow2_unfold(e);
    lemma_pow2_unfold((e - 1) as nat);
    lemma_pow2_adds(51, e);
    lemma_pow2_adds(52, e);
    lemma_pow2_adds(53, e);
    assert(p <= m * d) by (nonlinear_arith)
        requires
            p < d,
            m >= 1,
    ;
    assert(num / 1 == num);
    if m > PASSO {
        assert(pow2(52 + e) <= num < pow2(53 + e)) by (nonlinear_arith)
            requires
                num == m * d - p,
                0x10_0000_0000_0000 * d == pow2(52 + e),
                0x20_0000_0000_0000 * d == pow2(53 + e),
                0x10_0000_0000_0000 < m < 0x20_0000_0000_0000,
                0 <= p < d,
        ;
        lemma_bits_intervalo(num, 53 + e);
        assert(excesso(num, 1) == e);
        assert(num == (m - 1) * d + (d - p)) by (nonlinear_arith)
            requires
                num == m * d - p,
        ;
        lemma_fundamental_div_mod_converse(num as int, d as int, m - 1, d - p);
    } else {
        let h = pow2((e - 1) as nat);
        assert(pow2(51 + e) <= num < pow2(52 + e)) by (nonlinear_arith)
            requires
                num == m * d - p,
                0x8_0000_0000_0000 * d == pow2(51 + e),
                0x10_0000_0000_0000 * d == pow2(52 + e),
                m == 0x10_0000_0000_0000,
                0 < p < d,
        ;
        lemma_bits_intervalo(num, 52 + e);
        assert(excesso(num, 1) == e - 1);
        assert(num == (0x20_0000_0000_0000 - 1) * h + (h - p)) by (nonlinear_arith)
            requires
                num == m * d - p,
                m == 0x10_0000_0000_0000,
                d == 2 * h,
        ;
        lemma_fundamental_div_mod_converse(num as int, h as int, 0x20_0000_0000_0000 - 1, h - p);
    }
}

/// Duas magnitudes em ordem têm os valores na mesma ordem.
pub proof fn lemma_inteiro_ordenado(a: nat, b: nat)
    requires
        a <= b,
    ensures
        inteiro(a) <= inteiro(b),
        escala(a) <= escala(b),
{
    if a < PASSO {
        lemma2_to64();
        lemma_pow2_pos(escala(b));
        assert(a * 1 == a && b * 1 == b);
        if b >= PASSO {
            assert(inteiro(b) >= significando(b)) by (nonlinear_arith)
                requires
                    inteiro(b) == significando(b) * pow2(escala(b)),
                    pow2(escala(b)) >= 1,
            ;
        }
    } else {
        let x = a / (PASSO as nat);
        let y = b / (PASSO as nat);
        assert(x <= y);
        if x == y {
            assert(inteiro(a) <= inteiro(b)) by (nonlinear_arith)
                requires
                    inteiro(a) == significando(a) * pow2(escala(a)),
                    inteiro(b) == significando(b) * pow2(escala(a)),
                    significando(a) <= significando(b),
            ;
        } else {
            lemma_pow2_unfold((escala(a) + 1) as nat);
            lemma_pow2_monotona((escala(a) + 1) as nat, escala(b));
            assert(inteiro(a) <= inteiro(b)) by (nonlinear_arith)
                requires
                    inteiro(a) == significando(a) * pow2(escala(a)),
                    inteiro(b) == significando(b) * pow2(escala(b)),
                    pow2(escala(b)) >= 2 * pow2(escala(a)),
                    significando(a) < 0x20_0000_0000_0000,
                    significando(b) >= 0x10_0000_0000_0000,
            ;
        }
    }
}

/// Magnitude da soma (ou da diferença) de duas magnitudes finitas, a maior primeiro;
/// `None` quando a diferença é zero.
fn combinar(x: u64, y: u64, subtrai: bool) -> (r: Option<u64>)
    requires
        y <= x < INFINITO,
    ensures
        ({
            let v = if subtrai {
                inteiro(x as nat) - inteiro(y as nat)
            } else {
                inteiro(x as nat) as int + inteiro(y as nat)
            };
            &&& v >= 0
            &&& r is None <==> v == 0
            &&& r matches Some(m) ==> m == magnitude(v as nat, 1)
        }),
{
    let (sx, ex) = partes(x);
    let (sy, ey) = partes(y);
    proof {
        lemma_inteiro_ordenado(y as nat, x as nat);
        lemma_inteiro_positivo(x as nat);
        lemma_inteiro_positivo(y as nat);
        lemma2_to64();
    }
    let ghost vx = inteiro(x as nat);
    let ghost vy = inteiro(y as nat);
    let d = ex - ey;
    if d > 64 {
        proof {
            lemma2_to64_rest();
            lemma_pow2_adds(53, ey as nat);
            lemma_pow2_pos(ey as nat);
            lemma_pow2_monotona((53 + ey) as nat, (ex - 2) as nat);
            assert(vy < pow2((53 + ey) as nat)) by (nonlinear_arith)
                requires
                    vy == sy * pow2(ey as nat),
                    sy < 0x20_0000_0000_0000,
                    pow2(ey as nat) > 0,
                    0x20_0000_0000_0000 * pow2(ey as nat) == pow2((53 + ey) as nat),
            ;
            assert(x == ex * PASSO + sx);
            lemma_acrescimo_some(sx as nat, ex as nat, vy);
            lemma_acrescimo_some(sx as nat, ex as nat, 0);
            if vy > 0 {
                lemma_decrescimo_some(sx as nat, ex as nat, vy);
            }
        }
        return Some(x);
    }
    let sobe = dois_a(d as u32);
    proof {
        lemma_pow2_monotona(d as nat, 64);
        assert(sx * sobe <= 0x20_0000_0000_0000 * 0x1_0000_0000_0000_0000) by (nonlinear_arith)
            requires
                sx < 0x20_0000_0000_0000,
                sobe <= 0x1_0000_0000_0000_0000,
        ;
        lemma_pow2_adds(d as nat, ey as nat);
        lemma_pow2_pos(ey as nat);
        assert(vx == (sx * sobe) * pow2(ey as nat)) by (nonlinear_arith)
            requires
                vx == sx * pow2(ex as nat),
                sobe * pow2(ey as nat) == pow2(ex as nat),
        ;
    }
    let cx: u128 = sx as u128 * sobe;
    proof {
        assert(cx >= sy) by (nonlinear_arith)
            requires
                cx * pow2(ey as nat) >= sy * pow2(ey as nat),
                pow2(ey as nat) > 0,
        ;
    }
    let n: u128 = if subtrai {
        cx - sy as u128
    } else {
        cx + sy as u128
    };
    let ghost v = if subtrai {
        vx - vy
    } else {
        vx as int + vy
    };
    proof {
        assert(v == n * pow2(ey as nat)) by (nonlinear_arith)
            requires
                vx == cx * pow2(ey as nat),
                vy == sy * pow2(ey as nat),
                (v == vx - vy && n == cx - sy) || (v == vx + vy && n == cx + sy),
        ;
        assert(n == 0 <==> v == 0) by (nonlinear_arith)
            requires
                v == n * pow2(ey as nat),
                pow2(ey as nat) > 0,
        ;
        let q = escalar_den(1, ey as int);
        assert(n * q < (n + 1) * q) by (nonlinear_arith)
            requires
                q > 0,
        ;
    }
    if n == 0 {
        return None;
    }
    Some(arredondar_exato(n, ey, Ghost(v as nat), Ghost(1)))
}

impl Real {
    pub fn somar(self, outro: Real) -> (r: Real)
        ensures
            r == self.soma(outro),
    {
        let a = self.magnitude();
        let b = outro.magnitude();
        let na = self.eh_negativo();
        let nb = outro.eh_negativo();
        if a > INFINITO || b > INFINITO || (a == INFINITO && b == INFINITO && na != nb) {
            return Real { bits: NAO_NUMERO };
        }
        if a == INFINITO {
            return self;
        }
        if b == INFINITO {
            return outro;
        }
        let (maior, menor, neg) = if a >= b {
            (a, b, na)
        } else {
            (b, a, nb)
        };
        match combinar(maior, menor, na != nb) {
            None => compor(na && nb, 0),
            Some(m) => compor(neg, m),
        }
    }

    pub fn subtrair(self, outro: Real) -> (r: Real)
        ensures
            r == self.diferenca(outro),
    {
        self.somar(outro.negar())
    }

    /// O número mais próximo de `n`.
    pub fn de_natural(n: u128) -> (r: Real)
        ensures
            r == Real::do_inteiro(n as int),
    {
        let ghost num = n as nat * um();
        if n == 0 {
            proof {
                assert(0 * um() == 0);
                lemma_magnitude_nula(0, 1);
            }
            return Real { bits: 0 };
        }
        proof {
            lemma_pow2_pos(1074);
            assert(n * um() < (n + 1) * um()) by (nonlinear_arith)
                requires
                    um() > 0,
            ;
            assert(1 * um() == um());
        }
        let m = arredondar_exato(n, 1074, Ghost(num), Ghost(1));
        compor(false, m)
    }

    pub fn de_u64(n: u64) -> (r: Real)
        ensures
            r == Real::do_inteiro(n as int),
    {
        Real::de_natural(n as u128)
    }

    pub fn de_i128(n: i128) -> (r: Real)
        ensures
            r == Real::do_inteiro(n as int),
    {
        if n >= 0 {
            Real::de_natural(n as u128)
        } else {
            let absoluto: u128 = (-(n + 1)) as u128 + 1;
            Real::de_natural(absoluto).negar()
        }
    }
}

impl Real {
    /// Parte inteira do valor absoluto de um número finito.
    pub open spec fn parte_inteira(self) -> nat {
        inteiro(self.mag()) / um()
    }

    /// Conversão truncada para um natural de 64 bits, saturada nos extremos.
    pub open spec fn truncado_u64(self) -> u64 {
        if self.nan() || self.negativo() {
            0
        } else if self.infinito() || self.parte_inteira() > u64::MAX {
            u64::MAX
        } else {
            self.parte_inteira() as u64
        }
    }

    /// Conversão truncada para um inteiro de 128 bits, saturada nos extremos.
    pub open spec fn truncado_i128(self) -> i128 {
        if self.nan() {
            0
        } else if self.negativo() {
            if self.infinito() || self.parte_inteira() > i128::MAX {
                i128::MIN
            } else {
                (-(self.parte_inteira() as int)) as i128
            }
        } else if self.infinito() || self.parte_inteira() > i128::MAX {
            i128::MAX
        } else {
            self.parte_inteira() as i128
        }
    }

    /// Conversão para o natural de 64 bits mais próximo, meio para longe do zero,
    /// saturada nos extremos.
    pub open spec fn arredondado_u64(self) -> u64 {
        let n = (2 * inteiro(self.mag()) + um()) / (2 * um());
        if self.nan() || self.negativo() {
            0
        } else if self.infinito() || n > u64::MAX {
            u64::MAX
        } else {
            n as u64
        }
    }

    /// Nanossegundos de uma quantidade de segundos, com empate para o par.
    pub open spec fn nanos(self) -> nat {
        meio_par(inteiro(self.mag()) * 1_000_000_000, um())
    }

    /// Se a quantidade de segundos não é negativa e cabe em 64 bits.
    pub open spec fn cabe_em_duracao(self) -> bool {
        &&& self.finito()
        &&& self.negativo() ==> self.mag() == 0
        &&& inteiro(self.mag()) < pow2(64) * um()
    }
}

/// Parte inteira de `2^d` vezes o valor; `None` só a partir de 2^127.
fn piso_dobrado(mag: u64, d: u32) -> (r: Option<u128>)
    requires
        mag < INFINITO,
        d <= 1,
    ensures
        ({
            let v = (inteiro(mag as nat) * pow2(d as nat)) / um();
            match r {
                Some(n) => n == v,
                None => v >= pow2(127),
            }
        }),
{
    let (s, e) = partes(mag);
    let t = e + d as i32 - 1074;
    let ghost num = inteiro(mag as nat) * pow2(d as nat);
    let ghost f = pow2((e + d) as nat);
    proof {
        lemma_pow2_pos(1074);
        lemma_pow2_adds(e as nat, d as nat);
        assert(num == s * f) by (nonlinear_arith)
            requires
                num == (s * pow2(e as nat)) * pow2(d as nat),
                pow2(e as nat) * pow2(d as nat) == f,
        ;
    }
    if t >= 0 {
        let ghost g = pow2(t as nat);
        proof {
            lemma_pow2_adds(t as nat, 1074);
            lemma_pow2_pos(t as nat);
            assert(num == (s * g) * um()) by (nonlinear_arith)
                requires
                    num == s * f,
                    g * um() == f,
            ;
            lemma_fundamental_div_mod_converse(num as int, um() as int, s * g, 0);
        }
        if t > 74 {
            proof {
                lemma2_to64_rest();
                lemma_pow2_adds(52, 75);
                lemma_pow2_monotona(75, t as nat);
                assert(s * g >= pow2(127)) by (nonlinear_arith)
                    requires
                        s >= 0x10_0000_0000_0000,
                        0x10_0000_0000_0000 * pow2(75) == pow2(127),
                        g >= pow2(75),
                ;
            }
            return None;
        }
        let pot = dois_a(t as u32);
        proof {
            lemma2_to64_rest();
            lemma2_to64();
            lemma_pow2_adds(10, 64);
            lemma_pow2_monotona(t as nat, 74);
            assert(s * pot < 0x1_0000_0000_0000_0000_0000_0000_0000_0000) by (nonlinear_arith)
                requires
                    s < 0x20_0000_0000_0000,
                    pot <= 0x400 * 0x1_0000_0000_0000_0000,
            ;
        }
        return Some(s as u128 * pot);
    }
    let ghost b = pow2((-t) as nat);
    proof {
        lemma_pow2_adds((e + d) as nat, (-t) as nat);
        lemma_pow2_pos((-t) as nat);
        lemma_pow2_pos((e + d) as nat);
        lemma_meio_par_escala(s as nat, b, f);
        assert(b * f == um()) by (nonlinear_arith)
            requires
                f * b == um(),
        ;
    }
    if t <= -53 {
        proof {
            lemma2_to64_rest();
            lemma_pow2_monotona(53, (-t) as nat);
            assert(s as nat / b == 0) by (nonlinear_arith)
                requires
                    s < b,
            ;
        }
        return Some(0);
    }
    let pot = dois_a((-t) as u32);
    Some(s as u128 / pot)
}

impl Real {
    /// Trunca para um natural, saturando nos extremos.
    pub fn truncar_u64(self) -> (r: u64)
        ensures
            r == self.truncado_u64(),
    {
        let m = self.magnitude();
        if m > INFINITO || self.eh_negativo() {
            return 0;
        }
        if m == INFINITO {
            return u64::MAX;
        }
        proof {
            lemma2_to64();
            lemma_pow2_127_u64();
            assert(inteiro(m as nat) * 1 == inteiro(m as nat));
        }
        match piso_dobrado(m, 0) {
            None => u64::MAX,
            Some(n) => if n > u64::MAX as u128 {
                u64::MAX
            } else {
                n as u64
            },
        }
    }

    /// Trunca para um inteiro, saturando nos extremos.
    pub fn truncar_i128(self) -> (r: i128)
        ensures
            r == self.truncado_i128(),
    {
        let m = self.magnitude();
        if m > INFINITO {
            return 0;
        }
        let n: Option<u128> = if m == INFINITO {
            None
        } else {
            proof {
                lemma2_to64();
                assert(inteiro(m as nat) * 1 == inteiro(m as nat));
            }
            piso_dobrado(m, 0)
        };
        proof {
            crate::arredonda::lemma_pow2_127();
        }
        match n {
            Some(v) if v <= i128::MAX as u128 => if self.eh_negativo() {
                -(v as i128)
            } else {
                v as i128
            },
            _ => if self.eh_negativo() {
                i128::MIN
            } else {
                i128::MAX
            },
        }
    }

    /// Arredonda para o natural mais próximo, saturando nos extremos.
    pub fn arredondar_u64(self) -> (r: u64)
        ensures
            r == self.arredondado_u64(),
    {
        let m = self.magnitude();
        if m > INFINITO || self.eh_negativo() {
            return 0;
        }
        if m == INFINITO {
            return u64::MAX;
        }
        let ghost v = inteiro(m as nat);
        proof {
            lemma2_to64();
            lemma_pow2_127_u64();
            lemma_pow2_pos(1074);
            let h = (v * 2) as int / um() as int;
            let r = (v * 2) as int % um() as int;
            lemma_fundamental_div_mod((v * 2) as int, um() as int);
            let c = (h + 1) / 2;
            let b = (h + 1) % 2;
            assert(2 * v + um() == c * (2 * um()) + (b * um() + r)) by (nonlinear_arith)
                requires
                    v * 2 == um() * h + r,
                    h + 1 == 2 * c + b,
            ;
            assert(0 <= b * um() + r < 2 * um()) by (nonlinear_arith)
                requires
                    0 <= b <= 1,
                    0 <= r < um(),
            ;
            lemma_fundamental_div_mod_converse(
                (2 * v + um()) as int,
                (2 * um()) as int,
                c,
                b * um() + r,
            );
        }
        match piso_dobrado(m, 1) {
            None => u64::MAX,
            Some(n) => {
                let c: u128 = n / 2 + n % 2;
                if c > u64::MAX as u128 {
                    u64::MAX
                } else {
                    c as u64
                }
            },
        }
    }

    /// Segundos e nanossegundos mais próximos de uma quantidade de segundos; `None`
    /// quando ela é negativa, não é número ou não cabe em 64 bits.
    pub fn em_nanos(self) -> (r: Option<(u64, u32)>)
        ensures
            r is Some <==> self.cabe_em_duracao(),
            r matches Some(p) ==> p.0 == self.nanos() / 1_000_000_000 && p.1 == self.nanos()
                % 1_000_000_000,
    {
        let m = self.magnitude();
        if m >= INFINITO || (self.eh_negativo() && m > 0) {
            return None;
        }
        let (s, e) = partes(m);
        let t = e - 1074;
        let ghost v = inteiro(m as nat);
        let ghost f = pow2(e as nat);
        proof {
            lemma_pow2_pos(1074);
            lemma_pow2_pos(e as nat);
            lemma2_to64();
            lemma2_to64_rest();
        }
        if t >= 0 {
            let ghost g = pow2(t as nat);
            proof {
                lemma_pow2_adds(t as nat, 1074);
                assert(v == (s * g) * um()) by (nonlinear_arith)
                    requires
                        v == s * f,
                        g * um() == f,
                ;
            }
            if t > 11 {
                proof {
                    lemma_pow2_adds(52, 12);
                    lemma_pow2_monotona(12, t as nat);
                    assert(v >= pow2(64) * um()) by (nonlinear_arith)
                        requires
                            v == (s * g) * um(),
                            s >= 0x10_0000_0000_0000,
                            0x10_0000_0000_0000 * pow2(12) == pow2(64),
                            g >= pow2(12),
                    ;
                }
                return None;
            }
            let pot = dois_a(t as u32);
            proof {
                lemma_pow2_monotona(t as nat, 11);
                assert(s * pot < 0x1_0000_0000_0000_0000) by (nonlinear_arith)
                    requires
                        s < 0x20_0000_0000_0000,
                        pot <= 0x800,
                ;
                assert(v < pow2(64) * um()) by (nonlinear_arith)
                    requires
                        v == (s * g) * um(),
                        s * g < pow2(64),
                        um() > 0,
                ;
                let n = (s * g) * 1_000_000_000;
                assert(v * 1_000_000_000 == n * um()) by (nonlinear_arith)
                    requires
                        v == (s * g) * um(),
                        n == (s * g) * 1_000_000_000,
                ;
                lemma_fundamental_div_mod_converse(
                    (v * 1_000_000_000) as int,
                    um() as int,
                    n as int,
                    0,
                );
            }
            return Some(((s as u128 * pot) as u64, 0));
        }
        let ghost b = pow2((-t) as nat);
        let n: u128 = s as u128 * 1_000_000_000;
        proof {
            lemma_pow2_adds(e as nat, (-t) as nat);
            lemma_pow2_pos((-t) as nat);
            lemma_meio_par_escala(n as nat, b, f);
            assert(v * 1_000_000_000 == n * f) by (nonlinear_arith)
                requires
                    v == s * f,
                    n == s * 1_000_000_000,
            ;
            assert(b * f == um()) by (nonlinear_arith)
                requires
                    f * b == um(),
            ;
            assert(v < pow2(64) * um()) by (nonlinear_arith)
                requires
                    v == s * f,
                    s < 0x20_0000_0000_0000,
                    pow2(64) == 0x1_0000_0000_0000_0000,
                    b * f == um(),
                    b >= 1,
                    f >= 1,
            ;
        }
        if t <= -85 {
            proof {
                lemma_pow2_adds(21, 64);
                lemma_pow2_monotona(85, (-t) as nat);
                assert(n as nat / b == 0) by (nonlinear_arith)
                    requires
                        n < b,
                ;
                assert(n as nat % b == n) by (nonlinear_arith)
                    requires
                        n < b,
                ;
            }
            return Some((0, 0));
        }
        let den = dois_a((-t) as u32);
        let q: u128 = n / den;
        let resto: u128 = n % den;
        proof {
            lemma_pow2_adds(20, 64);
            lemma_pow2_monotona((-t) as nat, 84);
            assert(q <= n) by (nonlinear_arith)
                requires
                    q == n / den,
                    den >= 1,
            ;
        }
        let arredondado: u128 = if 2 * resto > den || (2 * resto == den && q % 2 == 1) {
            q + 1
        } else {
            q
        };
        Some(((arredondado / 1_000_000_000) as u64, (arredondado % 1_000_000_000) as u32))
    }
}

proof fn lemma_pow2_127_u64()
    ensures
        pow2(127) / 2 > u64::MAX,
{
    crate::arredonda::lemma_pow2_127();
}

} // verus!
