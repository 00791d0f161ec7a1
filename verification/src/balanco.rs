//! O que o resumo de um teste garante: fatias, desvios, perdas e vazão.

use vstd::arithmetic::power2::{lemma2_to64, lemma2_to64_rest, lemma_pow2_adds, lemma_pow2_pos, pow2};
use vstd::prelude::*;

use crate::arredonda::{lemma_magnitude_nula, lemma_pow2_monotona, magnitude};
use crate::config::Config;
use crate::invariancias::{desvio, lei_desvio_maximo};
use crate::metricas::{Agregado, EstatReceptor};
use crate::precisao::{
    lei_produto_proximo, lei_quociente_proximo, lemma_erro_do_inteiro, lemma_finito,
    lemma_natural_exato, lemma_produto_exato, perto,
};
use crate::proporcao::{lemma_magnitude_monotona, lemma_natural_finito, lemma_zero};
use crate::reais::{inteiro, lemma_inteiro_ordenado, um, Real};
use crate::relatorio::{
    fatia_ideal, maior_desvio, maior_janela, porcentagem, resumo_de, soma_enviadas, EnvioGerador,
    Veredito,
};

verus! {

/// Como a unidade se compara com os números de 53 bits.
pub proof fn lemma_unidade()
    ensures
        um() > 0,
        um() == pow2(900) * pow2(174),
        pow2(174) == pow2(53) * pow2(121),
        pow2(53) == 0x20_0000_0000_0000,
        pow2(121) >= 0x1_0000_0000_0000_0000,
        pow2(900) >= 0x1_0000_0000_0000_0000,
        pow2(2000) == um() * pow2(926),
        pow2(926) >= pow2(900),
{
    lemma2_to64();
    lemma2_to64_rest();
    lemma_pow2_adds(900, 174);
    lemma_pow2_adds(53, 121);
    lemma_pow2_adds(1074, 926);
    lemma_pow2_pos(1074);
    lemma_pow2_monotona(64, 121);
    lemma_pow2_monotona(64, 900);
    lemma_pow2_monotona(900, 926);
}

/// A unidade passa do produto de dois números de 64 bits.
pub proof fn lemma_unidade_grande(x: int, y: int)
    requires
        0 <= x <= 0x1_0000_0000_0000_0000,
        0 <= y <= 0x1_0000_0000_0000_0000,
    ensures
        x * y <= um(),
        um() * x < pow2(2000) || x == 0x1_0000_0000_0000_0000,
{
    lemma_unidade();
    let a = pow2(900) as int;
    let b = pow2(174) as int;
    lemma2_to64();
    lemma_pow2_monotona(64, 174);
    assert(x * y <= a * b) by (nonlinear_arith)
        requires
            0 <= x <= a,
            0 <= y <= b,
    ;
    if x < 0x1_0000_0000_0000_0000 {
        assert(um() * x < um() * pow2(926)) by (nonlinear_arith)
            requires
                um() > 0,
                x < pow2(926),
        ;
    }
}

/// O quociente de dois naturais de até 53 bits.
pub proof fn lemma_razao(a: nat, b: nat)
    requires
        0 < a < 0x20_0000_0000_0000,
        0 < b < 0x20_0000_0000_0000,
    ensures
        ({
            let x = Real::do_inteiro(a as int).quociente(Real::do_inteiro(b as int));
            &&& x.finito()
            &&& !x.negativo()
            &&& perto((inteiro(x.mag()) * b) as int, (a * um()) as int, 0x20_0000_0000_0000)
        }),
{
    let u = um();
    let p = Real::do_inteiro(a as int);
    let q = Real::do_inteiro(b as int);
    lemma_natural_exato(a);
    lemma_natural_exato(b);
    lemma_unidade();
    lemma_unidade_grande(b as int, 0x10_0000_0000_0000);
    lemma_unidade_grande(a as int, 0);
    assert(b * u > 0) by (nonlinear_arith)
        requires
            b > 0,
            u > 0,
    ;
    assert(q.mag() > 0) by {
        if q.mag() == 0 {
            assert(inteiro(0) == 0 * pow2(0));
            assert(0 * pow2(0) == 0);
        }
    }
    assert((a * u) * u >= (b * u) * 0x10_0000_0000_0000) by (nonlinear_arith)
        requires
            b * 0x10_0000_0000_0000 <= u,
            a >= 1,
            u > 0,
    ;
    assert((a * u) * u < (b * u) * pow2(2000)) by (nonlinear_arith)
        requires
            u * a < pow2(2000),
            b >= 1,
            u > 0,
    ;
    lei_quociente_proximo(p, q);
    let x = inteiro(p.quociente(q).mag()) as int;
    let t: int = 0x20_0000_0000_0000;
    assert(perto(x * b, (a * u) as int, t)) by (nonlinear_arith)
        requires
            -((a * u) * u) <= (x * (b * u) - (a * u) * u) * t <= (a * u) * u,
            u > 0,
    ;
}

/// Multiplicar por um natural pequeno uma razão de naturais de até 53 bits.
pub proof fn lemma_razao_vezes(x: Real, a: nat, b: nat, c: nat)
    requires
        0 < a < 0x20_0000_0000_0000,
        0 < b < 0x20_0000_0000_0000,
        0 < c < 0x20_0000_0000_0000,
        x.finito(),
        !x.negativo(),
        perto((inteiro(x.mag()) * b) as int, (a * um()) as int, 0x20_0000_0000_0000),
    ensures
        ({
            let p = x.produto(Real::do_inteiro(c as int));
            &&& p.finito()
            &&& !p.negativo()
            &&& perto(
                (inteiro(p.mag()) * b) as int,
                (c * a * um()) as int,
                0x8_0000_0000_0000,
            )
        }),
{
    let u = um() as int;
    let xx = inteiro(x.mag()) as int;
    let t: int = 0x20_0000_0000_0000;
    let y = a * u;
    lemma_natural_exato(c);
    lemma_unidade();
    lemma_unidade_grande(2 * (b as int), 0x10_0000_0000_0000);
    lemma_unidade_grande(2 * (a as int), 0);
    assert(y >= u) by (nonlinear_arith)
        requires
            y == a * u,
            a >= 1,
            u > 0,
    ;
    // A razão não é pequena demais nem grande demais.
    assert(2 * (xx * b) >= u) by (nonlinear_arith)
        requires
            -y <= (xx * b - y) * t,
            t == 0x20_0000_0000_0000,
            y >= u,
            u > 0,
    ;
    assert(xx >= 0x10_0000_0000_0000) by (nonlinear_arith)
        requires
            2 * (xx * b) >= u,
            2 * (b as int) * 0x10_0000_0000_0000 <= u,
            b >= 1,
    ;
    assert(xx * b <= 2 * y) by (nonlinear_arith)
        requires
            (xx * b - y) * t <= y,
            t == 0x20_0000_0000_0000,
            y >= 0,
    ;
    assert(xx <= u * (2 * a)) by (nonlinear_arith)
        requires
            xx * b <= 2 * y,
            y == a * u,
            b >= 1,
            xx >= 0,
    ;
    assert(xx * (c * u) >= u * 0x10_0000_0000_0000) by (nonlinear_arith)
        requires
            xx >= 0x10_0000_0000_0000,
            c >= 1,
            u > 0,
    ;
    assert(xx * (c * u) < u * pow2(2000)) by {
        lemma2_to64();
        assert(2 * a * c <= pow2(900)) by {
            lemma2_to64();
            lemma2_to64_rest();
            lemma_pow2_adds(54, 53);
            lemma_pow2_monotona(107, 900);
            assert(2 * a * c <= 0x40_0000_0000_0000 * 0x20_0000_0000_0000) by (nonlinear_arith)
                requires
                    0 <= 2 * a <= 0x40_0000_0000_0000,
                    0 <= c <= 0x20_0000_0000_0000,
            ;
        }
        lemma_pow2_adds(1074, 926);
        lemma_pow2_adds(1, 925);
        lemma_pow2_monotona(900, 925);
        lemma_pow2_pos(900);
        assert(xx * c <= u * (2 * a * c)) by (nonlinear_arith)
            requires
                xx <= u * (2 * a),
                c >= 0,
        ;
        assert(u * (2 * a * c) < u * pow2(926)) by (nonlinear_arith)
            requires
                2 * a * c < pow2(926),
                u > 0,
        ;
        assert(xx * (c * u) < u * (u * pow2(926))) by (nonlinear_arith)
            requires
                xx * c < u * pow2(926),
                u > 0,
        ;
    }
    lei_produto_proximo(x, Real::do_inteiro(c as int));
    let pp = inteiro(x.produto(Real::do_inteiro(c as int)).mag()) as int;
    assert(-(c * xx) <= (pp - c * xx) * t <= c * xx) by (nonlinear_arith)
        requires
            -(xx * (c * u)) <= (pp * u - xx * (c * u)) * t <= xx * (c * u),
            u > 0,
    ;
    lemma_compor(pp, xx, b as int, c as int, y);
    assert(c * a * um() == c * y) by (nonlinear_arith)
        requires
            y == a * u,
            u == um(),
    ;
}

/// Dois arredondamentos seguidos erram no máximo uma parte em 2^51.
proof fn lemma_compor(p: int, x: int, b: int, c: int, y: int)
    requires
        x >= 0,
        b > 0,
        c > 0,
        y >= 0,
        perto(x * b, y, 0x20_0000_0000_0000),
        -(c * x) <= (p - c * x) * 0x20_0000_0000_0000 <= c * x,
    ensures
        perto(p * b, c * y, 0x8_0000_0000_0000),
{
    let t: int = 0x20_0000_0000_0000;
    let e = (p - c * x) * t;
    let f = (x * b - y) * t;
    assert(-(c * x * b) <= e * b <= c * x * b) by (nonlinear_arith)
        requires
            -(c * x) <= e <= c * x,
            b > 0,
    ;
    assert(-(c * y) <= c * f <= c * y) by (nonlinear_arith)
        requires
            -y <= f <= y,
            c > 0,
    ;
    assert(x * b <= 2 * y) by (nonlinear_arith)
        requires
            f == (x * b - y) * t,
            f <= y,
            t == 0x20_0000_0000_0000,
            y >= 0,
    ;
    assert(c * x * b <= 2 * (c * y)) by (nonlinear_arith)
        requires
            x * b <= 2 * y,
            c > 0,
    ;
    assert((p * b - c * y) * t == e * b + c * f) by (nonlinear_arith)
        requires
            e == (p - c * x) * t,
            f == (x * b - y) * t,
    ;
    assert(c * y >= 0) by (nonlinear_arith)
        requires
            c > 0,
            y >= 0,
    ;
}

// ---- Fatias e desvios ----

/// A fatia ideal vezes a quantidade de receptores é 100%, a menos do arredondamento; sem nenhum
/// receptor, é a de um só.
pub proof fn lei_fatia_ideal(quantidade: usize)
    requires
        quantidade < 0x20_0000_0000_0000,
    ensures
        fatia_ideal(quantidade).finito(),
        !fatia_ideal(quantidade).negativo(),
        quantidade >= 1 ==> perto(
            inteiro(fatia_ideal(quantidade).mag()) * quantidade,
            (100 * um()) as int,
            0x20_0000_0000_0000,
        ),
        fatia_ideal(0) == fatia_ideal(1),
{
    lemma_razao(
        100,
        if quantidade < 1 {
            1
        } else {
            quantidade as nat
        },
    );
}

/// A porcentagem vezes o todo é cem vezes a parte, a menos do arredondamento; a de uma parte
/// negativa é o oposto, e a de um todo vazio é zero.
pub proof fn lei_porcentagem(parte: nat, todo: u64)
    requires
        parte < 0x20_0000_0000_0000,
        todo < 0x20_0000_0000_0000,
    ensures
        ({
            let p = porcentagem(parte as int, todo);
            &&& p.finito()
            &&& !p.negativo()
            &&& todo > 0 ==> perto(
                (inteiro(p.mag()) * todo) as int,
                (100 * parte * um()) as int,
                0x8_0000_0000_0000,
            )
            &&& todo == 0 || parte == 0 ==> p == Real::do_inteiro(0)
            &&& todo > 0 && parte > 0 ==> porcentagem(-parte, todo) == p.oposto()
        }),
{
    lemma_zero();
    lemma_natural_finito(100);
    if todo > 0 {
        if parte > 0 {
            lemma_razao(parte, todo as nat);
            let x = Real::do_inteiro(parte as int).quociente(Real::do_inteiro(todo as int));
            lemma_razao_vezes(x, parte, todo as nat, 100);
            lemma_natural_exato(parte);
            lemma_natural_exato(todo as nat);
        } else {
            lemma_porcentagem_de_nada(todo);
        }
    }
}

proof fn lemma_porcentagem_de_nada(todo: u64)
    requires
        0 < todo < 0x20_0000_0000_0000,
    ensures
        porcentagem(0, todo) == Real::do_inteiro(0),
        inteiro(0) == 0,
{
    lemma_zero();
    lemma_natural_exato(todo as nat);
    lemma_natural_exato(100);
    lemma_unidade();
    assert(inteiro(0) == 0) by {
        assert(0 * pow2(0) == 0);
    }
    let b = Real::do_inteiro(todo as int);
    assert(todo as nat * um() > 0) by (nonlinear_arith)
        requires
            todo > 0,
            um() > 0,
    ;
    assert(0 * um() == 0);
    lemma_magnitude_nula(0, inteiro(b.mag()));
    assert(0 * inteiro(Real::do_inteiro(100).mag()) == 0);
    lemma_magnitude_nula(0, um());
}

/// Quanto a fatia de um receptor se afasta da ideal, em partes de `n` vezes o total: zero quando ele
/// recebeu exatamente a sua parte.
pub open spec fn afastamento(recebidas: u64, total: u64, n: usize) -> int {
    let d = 100 * recebidas * n - 100 * total;
    if d < 0 {
        -d
    } else {
        d
    }
}

/// A diferença sem sinal entre dois números não negativos.
proof fn lemma_diferenca(p: Real, i: Real)
    requires
        p.finito(),
        i.finito(),
        !p.negativo(),
        !i.negativo(),
        inteiro(p.mag()) < pow2(2000),
        inteiro(i.mag()) < pow2(2000),
    ensures
        ({
            let d = inteiro(p.mag()) - inteiro(i.mag());
            let x = p.diferenca(i).absoluto();
            &&& x.finito()
            &&& !x.negativo()
            &&& x.mag() == magnitude(
                if d < 0 {
                    (-d) as nat
                } else {
                    d as nat
                },
                1,
            )
        }),
{
    let d = inteiro(p.mag()) - inteiro(i.mag());
    let v: nat = if d < 0 {
        (-d) as nat
    } else {
        d as nat
    };
    assert(1 * pow2(2000) == pow2(2000));
    lemma_finito(v, 1);
    lemma_magnitude_nula(0, 1);
    assert(inteiro(0) == 0) by {
        assert(0 * pow2(0) == 0);
    }
}

/// O afastamento que o desvio mede.
proof fn lemma_desvio(r: EstatReceptor, total: u64, n: usize) -> (d: nat)
    requires
        r.recebidas <= total,
        0 < total < 0x20_0000_0000_0000,
        1 <= n < 0x20_0000_0000_0000,
    ensures
        desvio(r, total, fatia_ideal(n)).finito(),
        !desvio(r, total, fatia_ideal(n)).negativo(),
        desvio(r, total, fatia_ideal(n)).mag() == magnitude(d, 1),
        -(um() * (total * n)) <= (d * (total * n) - afastamento(r.recebidas, total, n) * um())
            * 1024 <= um() * (total * n),
{
    let u = um() as int;
    let c = r.recebidas as int;
    let w = total as int;
    let nn = n as int;
    let fatia = porcentagem(c, total);
    let ideal = fatia_ideal(n);
    lei_porcentagem(r.recebidas as nat, total);
    lei_fatia_ideal(n);
    lemma_unidade();
    let p = inteiro(fatia.mag()) as int;
    let i = inteiro(ideal.mag()) as int;
    let s: int = 0x8_0000_0000_0000;
    let t: int = 0x20_0000_0000_0000;
    let y = 100 * c * u;
    let z = 100 * u;
    assert(0 <= y <= 100 * w * u) by (nonlinear_arith)
        requires
            y == 100 * c * u,
            0 <= c <= w,
            u > 0,
    ;
    assert(p <= 200 * u) by (nonlinear_arith)
        requires
            (p * w - y) * s <= y,
            s == 0x8_0000_0000_0000,
            y <= 100 * w * u,
            y >= 0,
            w >= 1,
            u > 0,
    ;
    assert(i <= 200 * u) by (nonlinear_arith)
        requires
            (i * nn - z) * t <= z,
            t == 0x20_0000_0000_0000,
            z == 100 * u,
            nn >= 1,
            u > 0,
            i >= 0,
    ;
    lemma_unidade_grande(200, 0);
    lemma_diferenca(fatia, ideal);
    let dif = p - i;
    let d: nat = if dif < 0 {
        (-dif) as nat
    } else {
        dif as nat
    };
    let g = (100 * c * nn - 100 * w) * u;
    let e1 = (p * w - y) * s;
    let e2 = (i * nn - z) * t;
    let m = w * nn;
    assert((p * w - y) * nn == p * m - y * nn) by (nonlinear_arith)
        requires
            m == w * nn,
    ;
    assert((i * nn - z) * w == i * m - z * w) by (nonlinear_arith)
        requires
            m == w * nn,
    ;
    assert(y * nn - z * w == g) by (nonlinear_arith)
        requires
            y == 100 * c * u,
            z == 100 * u,
            g == (100 * c * nn - 100 * w) * u,
    ;
    assert(dif * m == p * m - i * m) by (nonlinear_arith)
        requires
            dif == p - i,
    ;
    let k = 100 * u * m;
    assert(k == 100 * (u * m)) by (nonlinear_arith)
        requires
            k == 100 * u * m,
    ;
    assert(-k <= e1 * nn <= k) by (nonlinear_arith)
        requires
            -y <= e1 <= y,
            y <= 100 * w * u,
            k == 100 * u * m,
            m == w * nn,
            nn >= 1,
    ;
    assert(-k <= e2 * w <= k) by (nonlinear_arith)
        requires
            -z <= e2 <= z,
            z == 100 * u,
            k == 100 * u * m,
            m == w * nn,
            nn >= 1,
            w >= 1,
            u > 0,
    ;
    let a = (p * w - y) * nn;
    let b = (i * nn - z) * w;
    assert(a * s == e1 * nn) by (nonlinear_arith)
        requires
            a == (p * w - y) * nn,
            e1 == (p * w - y) * s,
    ;
    assert(b * t == e2 * w) by (nonlinear_arith)
        requires
            b == (i * nn - z) * w,
            e2 == (i * nn - z) * t,
    ;
    assert(u * m >= 0) by (nonlinear_arith)
        requires
            u > 0,
            m == w * nn,
            w >= 1,
            nn >= 1,
    ;
    assert(-(u * m) <= (dif * m - g) * 1024 <= u * m);
    assert((if dif < 0 {
        -dif
    } else {
        dif
    }) * m == if dif < 0 {
        -(dif * m)
    } else {
        dif * m
    }) by (nonlinear_arith);
    assert(dif * m >= 0 <==> dif >= 0 || m == 0) by (nonlinear_arith)
        requires
            m >= 0,
    ;
    let af = afastamento(r.recebidas, total, n);
    assert(af * u == if g < 0 {
        -g
    } else {
        g
    }) by (nonlinear_arith)
        requires
            g == (100 * c * nn - 100 * w) * u,
            af == if 100 * c * nn - 100 * w < 0 {
                -(100 * c * nn - 100 * w)
            } else {
                100 * c * nn - 100 * w
            },
            u > 0,
    ;
    d
}

/// Se a fatia do receptor se afasta da ideal no máximo tantos décimos de ponto percentual.
pub open spec fn afasta_ate(r: EstatReceptor, total: u64, n: usize, decimos: int) -> bool {
    10 * afastamento(r.recebidas, total, n) <= decimos * (total * n)
}

/// Se a fatia do receptor se afasta da ideal ao menos tantos décimos de ponto percentual.
pub open spec fn afasta_ao_menos(r: EstatReceptor, total: u64, n: usize, decimos: int) -> bool {
    10 * afastamento(r.recebidas, total, n) >= decimos * (total * n)
}

/// O desvio de um receptor está do lado certo de cada limite.
proof fn lemma_lado(r: EstatReceptor, total: u64, n: usize, pontos: int)
    requires
        r.recebidas <= total,
        0 < total < 0x20_0000_0000_0000,
        1 <= n < 0x20_0000_0000_0000,
        1 <= pontos <= 100,
    ensures
        afasta_ate(r, total, n, 10 * pontos - 1) ==> !Real::do_inteiro(pontos).menor(
            desvio(r, total, fatia_ideal(n)),
        ),
        afasta_ao_menos(r, total, n, 10 * pontos + 1) ==> Real::do_inteiro(pontos).menor(
            desvio(r, total, fatia_ideal(n)),
        ),
{
    let u = um() as int;
    let d = lemma_desvio(r, total, n) as int;
    let m = total * n;
    let af = afastamento(r.recebidas, total, n);
    let x = desvio(r, total, fatia_ideal(n));
    let limiar = Real::do_inteiro(pontos);
    lemma_natural_exato(pontos as nat);
    lemma_unidade();
    assert(m >= 1) by (nonlinear_arith)
        requires
            m == total * n,
            total >= 1,
            n >= 1,
    ;
    if afasta_ate(r, total, n, 10 * pontos - 1) {
        assert(d <= pontos * u) by (nonlinear_arith)
            requires
                (d * m - af * u) * 1024 <= u * m,
                10 * af <= (10 * pontos - 1) * m,
                m >= 1,
                u > 0,
        ;
        lemma_magnitude_monotona(d as nat, pontos as nat * um(), 1);
    }
    if afasta_ao_menos(r, total, n, 10 * pontos + 1) {
        assert(20 * d >= (20 * pontos + 1) * u) by (nonlinear_arith)
            requires
                -(u * m) <= (d * m - af * u) * 1024,
                10 * af >= (10 * pontos + 1) * m,
                m >= 1,
                u > 0,
        ;
        lemma_erro_do_inteiro(d as nat);
        let e = inteiro(magnitude(d as nat, 1)) as int;
        let t: int = 0x20_0000_0000_0000;
        assert(e > pontos * u) by (nonlinear_arith)
            requires
                -d <= (e - d) * t,
                t == 0x20_0000_0000_0000,
                20 * d >= (20 * pontos + 1) * u,
                1 <= pontos <= 100,
                u > 0,
        ;
        if x.mag() <= limiar.mag() {
            lemma_inteiro_ordenado(x.mag(), limiar.mag());
        }
    }
}

/// O veredito segue as fatias. Com todos os receptores a menos de um ponto percentual da fatia ideal é
/// balanceado, e com todos a menos de cinco não é desbalanceado; um só a mais de um ponto já não é
/// balanceado, e um só a mais de cinco é desbalanceado. A um décimo de ponto de cada limite o
/// arredondamento não decide.
pub proof fn lei_veredito(rs: Seq<EstatReceptor>, total: u64, n: usize)
    requires
        0 < total < 0x20_0000_0000_0000,
        1 <= n < 0x20_0000_0000_0000,
        forall|i: int| 0 <= i < rs.len() ==> (#[trigger] rs[i]).recebidas <= total,
    ensures
        ({
            let v = Veredito::do_desvio(maior_desvio(rs, total, fatia_ideal(n)));
            &&& (forall|i: int| 0 <= i < rs.len() ==> afasta_ate(#[trigger] rs[i], total, n, 9))
                ==> v is Balanceado
            &&& (exists|i: int|
                0 <= i < rs.len() && afasta_ao_menos(#[trigger] rs[i], total, n, 11))
                ==> v !is Balanceado
            &&& (forall|i: int| 0 <= i < rs.len() ==> afasta_ate(#[trigger] rs[i], total, n, 49))
                ==> v !is Desbalanceado
            &&& (exists|i: int|
                0 <= i < rs.len() && afasta_ao_menos(#[trigger] rs[i], total, n, 51))
                ==> v is Desbalanceado
        }),
{
    lei_desvio_maximo(rs, total, fatia_ideal(n));
    assert forall|i: int| 0 <= i < rs.len() implies ({
        let r = #[trigger] rs[i];
        let x = desvio(r, total, fatia_ideal(n));
        &&& afasta_ate(r, total, n, 9) ==> !Real::do_inteiro(1).menor(x)
        &&& afasta_ao_menos(r, total, n, 11) ==> Real::do_inteiro(1).menor(x)
        &&& afasta_ate(r, total, n, 49) ==> !Real::do_inteiro(5).menor(x)
        &&& afasta_ao_menos(r, total, n, 51) ==> Real::do_inteiro(5).menor(x)
    }) by {
        lemma_lado(rs[i], total, n, 1);
        lemma_lado(rs[i], total, n, 5);
    }
}

/// Quando cada um dos `n` receptores recebe a mesma quantidade, o veredito é balanceado.
pub proof fn lei_partes_iguais_balanceadas(rs: Seq<EstatReceptor>, cada: u64, n: usize)
    requires
        cada > 0,
        1 <= n,
        cada * n < 0x20_0000_0000_0000,
        forall|i: int| 0 <= i < rs.len() ==> (#[trigger] rs[i]).recebidas == cada,
    ensures
        Veredito::do_desvio(
            maior_desvio(rs, (cada * n) as u64, fatia_ideal(n)),
        ) is Balanceado,
{
    let total = (cada * n) as u64;
    assert(total >= cada && total >= n && total == cada * n) by (nonlinear_arith)
        requires
            total == cada * n,
            cada >= 1,
            n >= 1,
    ;
    assert forall|i: int| 0 <= i < rs.len() implies (#[trigger] rs[i]).recebidas <= total
        && afasta_ate(rs[i], total, n, 9) by {
        assert(100 * rs[i].recebidas * n == 100 * (cada * n)) by (nonlinear_arith)
            requires
                rs[i].recebidas == cada,
        ;
        assert(total * n >= 0) by (nonlinear_arith);
    }
    lei_veredito(rs, total, n);
}

// ---- Perdas, janela e vazão ----

/// O resumo soma o que os geradores enviaram: um gerador a mais acrescenta o que ele enviou, em 64
/// bits, e não muda o que se recebeu nem o desvio.
pub proof fn lei_resumo_mais_um_gerador(
    cfg: Config,
    es: Seq<EnvioGerador>,
    e: EnvioGerador,
    ag: Agregado,
    tamanho_medio: usize,
)
    ensures
        ({
            let a = resumo_de(cfg, es, ag, tamanho_medio);
            let b = resumo_de(cfg, es.push(e), ag, tamanho_medio);
            &&& b.enviadas == (a.enviadas + e.enviadas_uteis) % 0x1_0000_0000_0000_0000
            &&& b.recebidas == a.recebidas
            &&& b.desvio_maximo == a.desvio_maximo
            &&& resumo_de(cfg, Seq::empty(), ag, tamanho_medio).enviadas == 0
        }),
{
    lemma_soma_mais_um(es, e);
}

proof fn lemma_soma_mais_um(es: Seq<EnvioGerador>, e: EnvioGerador)
    ensures
        soma_enviadas(es) >= 0,
        soma_enviadas(es.push(e)) % 0x1_0000_0000_0000_0000 == (soma_enviadas(es)
            % 0x1_0000_0000_0000_0000 + e.enviadas_uteis) % 0x1_0000_0000_0000_0000,
{
    assert(es.push(e).drop_last() =~= es);
    lemma_soma_nao_negativa(es);
}

proof fn lemma_soma_nao_negativa(es: Seq<EnvioGerador>)
    ensures
        soma_enviadas(es) >= 0,
    decreases es.len(),
{
    if es.len() > 0 {
        lemma_soma_nao_negativa(es.drop_last());
    }
}

/// O que se recebeu é o total agregado; o que se perdeu é a diferença do que se enviou, e a sua
/// porcentagem é a do que se enviou, negativa quando sobrou.
pub proof fn lei_perdas_do_resumo(
    cfg: Config,
    es: Seq<EnvioGerador>,
    ag: Agregado,
    tamanho_medio: usize,
)
    ensures
        ({
            let r = resumo_de(cfg, es, ag, tamanho_medio);
            &&& r.recebidas == ag.total_recebidas
            &&& i64::MIN <= r.enviadas - r.recebidas <= i64::MAX ==> r.perdidas == r.enviadas
                - r.recebidas
            &&& r.enviadas == 0 ==> r.perda_pct == Real::do_inteiro(0)
            &&& 0 < r.enviadas < 0x20_0000_0000_0000 && r.recebidas <= r.enviadas
                ==> !r.perda_pct.negativo() && perto(
                (inteiro(r.perda_pct.mag()) * r.enviadas) as int,
                100 * (r.enviadas - r.recebidas) * um(),
                0x8_0000_0000_0000,
            )
            &&& 0 < r.enviadas < r.recebidas < 0x20_0000_0000_0000 ==> r.perda_pct.negativo()
                && perto(
                (inteiro(r.perda_pct.mag()) * r.enviadas) as int,
                100 * (r.recebidas - r.enviadas) * um(),
                0x8_0000_0000_0000,
            )
        }),
{
    let r = resumo_de(cfg, es, ag, tamanho_medio);
    if 0 < r.enviadas < 0x20_0000_0000_0000 && r.recebidas <= r.enviadas {
        lei_porcentagem((r.enviadas - r.recebidas) as nat, r.enviadas);
    }
    if 0 < r.enviadas < r.recebidas < 0x20_0000_0000_0000 {
        lei_porcentagem((r.recebidas - r.enviadas) as nat, r.enviadas);
    }
}

/// A janela é a maior das dos geradores: nenhuma passa dela, e ela é zero ou a de algum deles.
pub proof fn lei_janela_do_resumo(
    cfg: Config,
    es: Seq<EnvioGerador>,
    ag: Agregado,
    tamanho_medio: usize,
)
    ensures
        ({
            let j = resumo_de(cfg, es, ag, tamanho_medio).janela_s;
            &&& !j.nan()
            &&& !j.negativo()
            &&& forall|i: int|
                0 <= i < es.len() && !es[i].janela_s.nan() ==> (
                #[trigger] es[i]).janela_s.menor_ou_igual(j)
            &&& j == Real::do_inteiro(0) || exists|i: int|
                0 <= i < es.len() && (#[trigger] es[i]).janela_s == j
        }),
    decreases es.len(),
{
    lemma_zero();
    if es.len() > 0 {
        let antes = es.drop_last();
        lei_janela_do_resumo(cfg, antes, ag, tamanho_medio);
        let j = maior_janela(es);
        assert forall|i: int| 0 <= i < es.len() && !es[i].janela_s.nan() implies (
        #[trigger] es[i]).janela_s.menor_ou_igual(j) by {
            if i < antes.len() {
                assert(antes[i] == es[i]);
            }
        }
        if j == es.last().janela_s {
            assert(es[es.len() - 1].janela_s == j);
        } else if j != Real::do_inteiro(0) {
            let i = choose|i: int| 0 <= i < antes.len() && (#[trigger] antes[i]).janela_s == j;
            assert(es[i].janela_s == j);
        }
    }
}

/// A vazão vezes a janela é o que se recebeu, a menos do arredondamento; sem janela é zero.
pub proof fn lei_vazao_do_resumo(
    cfg: Config,
    es: Seq<EnvioGerador>,
    ag: Agregado,
    tamanho_medio: usize,
    segundos: nat,
)
    requires
        segundos < 0x20_0000_0000_0000,
        ag.total_recebidas < 0x20_0000_0000_0000,
        resumo_de(cfg, es, ag, tamanho_medio).janela_s == Real::do_inteiro(segundos as int),
    ensures
        ({
            let r = resumo_de(cfg, es, ag, tamanho_medio);
            &&& segundos == 0 || r.recebidas == 0 ==> r.vazao == Real::do_inteiro(0)
            &&& segundos > 0 && r.recebidas > 0 ==> !r.vazao.negativo() && perto(
                (inteiro(r.vazao.mag()) * segundos) as int,
                (r.recebidas * um()) as int,
                0x20_0000_0000_0000,
            )
        }),
{
    lemma_zero();
    lemma_natural_exato(segundos);
    lemma_unidade();
    let r = resumo_de(cfg, es, ag, tamanho_medio);
    assert(inteiro(0) == 0) by {
        assert(0 * pow2(0) == 0);
    }
    if segundos > 0 {
        assert(segundos * um() > 0) by (nonlinear_arith)
            requires
                segundos > 0,
                um() > 0,
        ;
        assert(Real::do_inteiro(segundos as int).mag() > 0);
        if r.recebidas > 0 {
            lemma_razao(r.recebidas as nat, segundos);
        } else {
            assert(0 * um() == 0);
            lemma_magnitude_nula(0, inteiro(Real::do_inteiro(segundos as int).mag()));
        }
    }
}

/// Os megabytes por segundo são a vazão vezes o tamanho médio das mensagens, em partes de 2^20 bytes,
/// a menos do arredondamento, quando a vazão é um natural.
pub proof fn lei_megabytes_do_resumo(
    cfg: Config,
    es: Seq<EnvioGerador>,
    ag: Agregado,
    tamanho_medio: usize,
    vazao: nat,
)
    requires
        0 < vazao,
        0 < tamanho_medio,
        vazao * tamanho_medio < 0x20_0000_0000_0000,
        resumo_de(cfg, es, ag, tamanho_medio).vazao == Real::do_inteiro(vazao as int),
    ensures
        ({
            let r = resumo_de(cfg, es, ag, tamanho_medio);
            !r.mb_s.negativo() && perto(
                (inteiro(r.mb_s.mag()) * 1_048_576) as int,
                vazao * tamanho_medio * um(),
                0x20_0000_0000_0000,
            )
        }),
{
    assert(vazao < 0x20_0000_0000_0000 && tamanho_medio < 0x20_0000_0000_0000 && vazao
        * tamanho_medio > 0) by (nonlinear_arith)
        requires
            0 < vazao,
            0 < tamanho_medio,
            vazao * tamanho_medio < 0x20_0000_0000_0000,
    ;
    lemma_produto_exato(vazao, tamanho_medio as nat);
    lemma_razao((vazao * tamanho_medio) as nat, 1_048_576);
}

} // verus!
