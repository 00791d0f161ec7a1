//! As grafias de uma duração: a mesma quantidade de horas escrita em cada unidade.

use vstd::arithmetic::div_mod::lemma_fundamental_div_mod;
use vstd::arithmetic::power2::{
    lemma2_to64, lemma2_to64_rest, lemma_pow2_adds, lemma_pow2_pos, pow2,
};
use vstd::prelude::*;
use vstd::string::*;

use crate::arredonda::{
    bits, excesso, lemma_bits_intervalo, lemma_magnitude_nula, lemma_meio_par_escala, magnitude,
    meio_par, INFINITO,
};
use crate::decimal::{dez, digitos, lemma_digitos_sao_algarismos};
use crate::duracao::{numero_e_fator, segundos_lidos};
use crate::inteiros::lei_numeral_lido;
use crate::leitura::{eh_algarismo, lido, minusculas, numeral_lido, quantos_algarismos};
use crate::precisao::{
    lei_produto_proximo, lemma_arredondado_ao_natural, lemma_mais_perto, lemma_natural_exato,
    lemma_posicao, lemma_produto_exato, lemma_valor_arredondado, perto,
};
use crate::proporcao::{lemma_magnitude_escala, lemma_zero};
use crate::reais::{inteiro, um, Real};
use crate::texto::{aparado, espaco};

verus! {

// ---- A leitura de cada grafia ----

proof fn lemma_sem_espacos(s: Seq<char>)
    requires
        s.len() > 0,
        !espaco(s[0]),
        !espaco(s.last()),
    ensures
        aparado(s) == s,
{
}

pub proof fn lemma_todos_algarismos(s: Seq<char>)
    requires
        forall|i: int| 0 <= i < s.len() ==> eh_algarismo(#[trigger] s[i]),
    ensures
        quantos_algarismos(s) == s.len(),
    decreases s.len(),
{
    if s.len() > 0 {
        assert forall|i: int| 0 <= i < s.drop_first().len() implies eh_algarismo(
            #[trigger] s.drop_first()[i],
        ) by {
            assert(s.drop_first()[i] == s[i + 1]);
        }
        lemma_todos_algarismos(s.drop_first());
    }
}

/// O numeral de um natural é lido como o número mais próximo dele.
pub proof fn lemma_digitos_lidos(n: nat)
    ensures
        digitos(n).len() > 0,
        eh_algarismo(digitos(n)[0]),
        eh_algarismo(digitos(n).last()),
        aparado(digitos(n)) == digitos(n),
        lido(digitos(n)) == Some(Real::do_inteiro(n as int)),
{
    let d = digitos(n);
    lemma_digitos_sao_algarismos(n);
    lei_numeral_lido(n);
    assert('0' <= d[0] <= '9');
    assert('0' <= d[d.len() - 1] <= '9');
    lemma_sem_espacos(d);
    lemma_todos_algarismos(d);
    reveal_strlit("inf");
    reveal_strlit("infinity");
    reveal_strlit("nan");
    assert(minusculas(d)[0] == d[0]);
    assert(d.skip(d.len() as int) =~= Seq::<char>::empty());
    assert(d.take(d.len() as int) + Seq::<char>::empty() =~= d);
    assert(numeral_lido(d) == Some((n, 0int)));
    assert(dez(0) == 1);
    assert(n * 1 == n);
}

/// Os segundos de um numeral seguido de uma unidade são o produto do número pelo fator dela.
proof fn lemma_segundos_lidos(n: nat, unidade: Seq<char>)
    requires
        n < 0x20_0000_0000_0000,
        unidade == Seq::<char>::empty() || unidade == seq!['s'] || unidade == seq!['m'] || unidade
            == seq!['h'] || unidade == seq!['m', 's'],
    ensures
        segundos_lidos(digitos(n) + unidade) == Some(
            Real::do_inteiro(n as int).produto(
                if unidade == seq!['m', 's'] {
                    Real::do_inteiro(1).quociente(Real::do_inteiro(1000))
                } else if unidade == seq!['m'] {
                    Real::do_inteiro(60)
                } else if unidade == seq!['h'] {
                    Real::do_inteiro(3600)
                } else {
                    Real::do_inteiro(1)
                },
            ),
        ),
{
    let d = digitos(n);
    let s = d + unidade;
    lemma_digitos_lidos(n);
    lemma_natural_exato(n);
    lemma_zero();
    assert(s[0] == d[0]);
    if unidade.len() == 0 {
        assert(s =~= d);
        assert(seq!['m', 's'].len() == 2 && seq!['m'].len() == 1 && seq!['h'].len() == 1);
    } else if unidade.len() == 1 {
        assert(s.last() == unidade[0]);
        assert(s.drop_last() =~= d);
        assert(seq!['m', 's'].len() == 2);
        assert(seq!['m'][0] == 'm' && seq!['h'][0] == 'h' && seq!['s'][0] == 's');
    } else {
        assert(s.last() == 's');
        assert(s.drop_last().last() == 'm');
        assert(s.drop_last().drop_last() =~= d);
    }
    lemma_sem_espacos(s);
    assert(numero_e_fator(s).0 == d);
}

/// Os nanossegundos de um natural de segundos.
pub proof fn lemma_nanos_de_segundos(n: nat)
    requires
        n < 0x20_0000_0000_0000,
    ensures
        Real::do_inteiro(n as int).cabe_em_duracao(),
        Real::do_inteiro(n as int).nanos() == n * 1_000_000_000,
{
    lemma_natural_exato(n);
    lemma_pow2_pos(1074);
    lemma2_to64();
    let u = um();
    assert(n * u < pow2(64) * u) by (nonlinear_arith)
        requires
            n < pow2(64),
            u > 0,
    ;
    assert((n * u) * 1_000_000_000 == (n * 1_000_000_000) * u) by (nonlinear_arith);
    lemma_mais_perto((n * u) * 1_000_000_000, u, n * 1_000_000_000);
}

/// O número mais próximo de um milésimo, na unidade de [`inteiro`].
proof fn lemma_milesimo()
    ensures
        Real::do_inteiro(1).quociente(Real::do_inteiro(1000)).finito(),
        !Real::do_inteiro(1).quociente(Real::do_inteiro(1000)).negativo(),
        inteiro(Real::do_inteiro(1).quociente(Real::do_inteiro(1000)).mag())
            == 4_611_686_018_427_388 * pow2(1012),
{
    let u = um();
    lemma_natural_exato(1);
    lemma_natural_exato(1000);
    lemma_pow2_pos(1074);
    lemma_pow2_pos(1012);
    lemma2_to64();
    lemma2_to64_rest();
    assert(1 * u == u);
    assert(Real::do_inteiro(1000).mag() != 0) by {
        assert(inteiro(0) == 0 * pow2(0));
        assert(0 * pow2(0) == 0);
    }
    lemma_magnitude_escala(u, 1000, u);
    assert(u * u == u * u && 1000 * u == 1000 * u);
    // Os bits do quociente.
    lemma_pow2_adds(10, 1064);
    lemma_pow2_adds(9, 1065);
    let q = u / 1000;
    lemma_fundamental_div_mod(u as int, 1000);
    assert(pow2(1064) <= q < pow2(1065));
    lemma_bits_intervalo(q, 1065);
    // O significando.
    lemma_pow2_adds(62, 1012);
    lemma_meio_par_escala(pow2(62), 1000, pow2(1012));
    assert(pow2(62) == 0x4000_0000_0000_0000);
    assert(meio_par(0x4000_0000_0000_0000, 1000) == 4_611_686_018_427_388);
    assert(magnitude(u, 1000) < INFINITO);
    lemma_valor_arredondado(u, 1000);
}

/// Mil vezes `n`, vezes o número mais próximo de um milésimo, dá `n` sem erro.
proof fn lemma_mil_milesimos(n: nat)
    requires
        1000 * n < 0x20_0000_0000_0000,
    ensures
        Real::do_inteiro((1000 * n) as int).produto(
            Real::do_inteiro(1).quociente(Real::do_inteiro(1000)),
        ) == Real::do_inteiro(n as int),
{
    let u = um();
    let c = pow2(1012);
    let m: nat = 4_611_686_018_427_388;
    lemma_natural_exato(1000 * n);
    lemma_milesimo();
    lemma_pow2_pos(1074);
    lemma_pow2_pos(1012);
    lemma2_to64();
    lemma2_to64_rest();
    let v = (1000 * n) * (m * c);
    assert((1000 * n * u) * (m * c) == v * u) by (nonlinear_arith)
        requires
            v == (1000 * n) * (m * c),
    ;
    assert(1 * u == u);
    lemma_magnitude_escala(v, 1, u);
    // O milésimo guardado passa do exato em 96 partes de 2^62.
    lemma_pow2_adds(62, 1012);
    assert(v == n * u + n * 96 * c) by (nonlinear_arith)
        requires
            v == (1000 * n) * (m * c),
            m == 4_611_686_018_427_388,
            u == 0x4000_0000_0000_0000 * c,
    ;
    if n == 0 {
        assert(v == 0 && n * u == 0) by (nonlinear_arith)
            requires
                n == 0,
                v == n * u + n * 96 * c,
        ;
    } else {
        assert(0 <= n * 96 * c < u) by (nonlinear_arith)
            requires
                96 * n < 0x4000_0000_0000_0000,
                u == 0x4000_0000_0000_0000 * c,
                c > 0,
        ;
        lemma_posicao(n, v);
        lemma_posicao(n, n * u);
        let k = excesso(v, 1);
        lemma_pow2_pos(k);
        lemma_pow2_adds(9, 1012);
        lemma_pow2_adds(bits(n), 1021);
        assert(2 * (n * 96 * c) < pow2(k)) by (nonlinear_arith)
            requires
                pow2(k) == pow2(bits(n)) * (512 * c),
                n < pow2(bits(n)),
                c > 0,
        ;
        lemma_arredondado_ao_natural(n, v);
        lemma_arredondado_ao_natural(n, n * u);
        let a = meio_par(v, 1 * pow2(k));
        let b = meio_par(n * u, 1 * pow2(k));
        assert(a == b) by (nonlinear_arith)
            requires
                a * pow2(k) == b * pow2(k),
                pow2(k) > 0,
        ;
    }
}

/// Se o texto é uma duração de exatamente tantos segundos.
pub open spec fn dura(s: Seq<char>, segundos: nat) -> bool {
    segundos_lidos(s) matches Some(x) && x.cabe_em_duracao() && x.nanos() == segundos
        * 1_000_000_000
}

/// As cinco grafias de uma quantidade de horas dão a mesma duração: em horas, em minutos, em
/// segundos com e sem a unidade, e em milissegundos, enquanto estes são guardados sem
/// arredondamento.
pub proof fn lei_grafias_da_mesma_duracao(horas: nat)
    requires
        3_600_000 * horas < 0x20_0000_0000_0000,
    ensures
        dura(digitos(horas) + "h"@, 3600 * horas),
        dura(digitos(60 * horas) + "m"@, 3600 * horas),
        dura(digitos(3600 * horas) + "s"@, 3600 * horas),
        dura(digitos(3600 * horas), 3600 * horas),
        dura(digitos(3_600_000 * horas) + "ms"@, 3600 * horas),
{
    reveal_strlit("h");
    reveal_strlit("m");
    reveal_strlit("s");
    reveal_strlit("ms");
    assert("h"@ =~= seq!['h']);
    assert("m"@ =~= seq!['m']);
    assert("s"@ =~= seq!['s']);
    assert("ms"@ =~= seq!['m', 's']);
    assert(seq!['h'][0] != seq!['m'][0] && seq!['s'][0] != seq!['m'][0] && seq!['s'][0]
        != seq!['h'][0]);
    assert(seq!['m', 's'].len() == 2 && seq!['h'].len() == 1 && seq!['m'].len() == 1);
    lemma_segundos_lidos(horas, seq!['h']);
    lemma_segundos_lidos(60 * horas, seq!['m']);
    lemma_segundos_lidos(3600 * horas, seq!['s']);
    lemma_segundos_lidos(3600 * horas, Seq::empty());
    lemma_segundos_lidos(3_600_000 * horas, seq!['m', 's']);
    assert(digitos(3600 * horas) + Seq::<char>::empty() =~= digitos(3600 * horas));
    lemma_produto_exato(horas, 3600);
    lemma_produto_exato(60 * horas, 60);
    lemma_produto_exato(3600 * horas, 1);
    lemma_nanos_de_segundos(3600 * horas);
    lemma_mil_milesimos(3600 * horas);
}

/// Sem unidade, e com ela, um numeral são tantos segundos; seguido de `m` tantos minutos, e de `h`
/// tantas horas.
pub proof fn lei_unidades(n: nat)
    requires
        3600 * n < 0x20_0000_0000_0000,
    ensures
        dura(digitos(n), n),
        dura(digitos(n) + "s"@, n),
        dura(digitos(n) + "m"@, 60 * n),
        dura(digitos(n) + "h"@, 3600 * n),
{
    reveal_strlit("h");
    reveal_strlit("m");
    reveal_strlit("s");
    assert("h"@ =~= seq!['h']);
    assert("m"@ =~= seq!['m']);
    assert("s"@ =~= seq!['s']);
    assert(seq!['h'][0] != seq!['m'][0] && seq!['s'][0] != seq!['m'][0] && seq!['s'][0]
        != seq!['h'][0]);
    assert(seq!['m', 's'].len() == 2 && seq!['h'].len() == 1 && seq!['m'].len() == 1);
    lemma_segundos_lidos(n, Seq::empty());
    lemma_segundos_lidos(n, seq!['s']);
    lemma_segundos_lidos(n, seq!['m']);
    lemma_segundos_lidos(n, seq!['h']);
    assert(digitos(n) + Seq::<char>::empty() =~= digitos(n));
    lemma_produto_exato(n, 1);
    lemma_produto_exato(n, 60);
    lemma_produto_exato(n, 3600);
    lemma_nanos_de_segundos(n);
    lemma_nanos_de_segundos(60 * n);
    lemma_nanos_de_segundos(3600 * n);
}

/// Um numeral seguido de `ms` são exatamente tantos milissegundos.
pub proof fn lei_milissegundos(n: nat)
    requires
        n < 0x4000_0000,
    ensures
        segundos_lidos(digitos(n) + "ms"@) matches Some(x) && x.cabe_em_duracao() && x.nanos() == n
            * 1_000_000,
{
    reveal_strlit("ms");
    assert("ms"@ =~= seq!['m', 's']);
    lemma_segundos_lidos(n, seq!['m', 's']);
    let f = Real::do_inteiro(1).quociente(Real::do_inteiro(1000));
    let a = Real::do_inteiro(n as int);
    let x = a.produto(f);
    let u = um();
    let c = pow2(1012);
    let m: nat = 4_611_686_018_427_388;
    lemma_natural_exato(n);
    lemma_milesimo();
    lemma_pow2_pos(1074);
    lemma_pow2_pos(1012);
    lemma2_to64();
    lemma2_to64_rest();
    lemma_pow2_adds(62, 1012);
    if n == 0 {
        assert(0 * u == 0 && 0 * (m * c) == 0);
        lemma_magnitude_nula(0, u);
        assert(inteiro(0) == 0) by {
            assert(0 * pow2(0) == 0);
        }
        assert(0 * 1_000_000_000 == 0);
        lemma_mais_perto(0, u, 0);
        assert(0 < pow2(64) * u) by (nonlinear_arith)
            requires
                u > 0,
                pow2(64) > 0,
        ;
    } else {
        let v = n * (m * c);
        assert((n * u) * (m * c) == v * u) by (nonlinear_arith)
            requires
                v == n * (m * c),
        ;
        lemma_produto_em_faixa(n, m, c, u, v);
        lei_produto_proximo(a, f);
        let p = inteiro(x.mag());
        assert(perto((p * u) as int, (v * u) as int, 0x20_0000_0000_0000));
        lemma_nanos_de_milesimos(n, m, c, u, v, p);
        lemma_mais_perto(p * 1_000_000_000, u, n * 1_000_000);
    }
}

proof fn lemma_produto_em_faixa(n: nat, m: nat, c: nat, u: nat, v: nat)
    requires
        0 < n < 0x4000_0000,
        m == 4_611_686_018_427_388,
        c == pow2(1012),
        u == pow2(1074),
        u == 0x4000_0000_0000_0000 * c,
        v == n * (m * c),
    ensures
        v * u >= u * 0x10_0000_0000_0000,
        v * u < u * pow2(2000),
{
    lemma_pow2_pos(1012);
    lemma2_to64();
    lemma2_to64_rest();
    lemma_pow2_adds(52, 960);
    lemma_pow2_pos(960);
    let t = pow2(52);
    assert(v >= c) by (nonlinear_arith)
        requires
            v == n * (m * c),
            n > 0,
            m > 0,
            c > 0,
    ;
    assert(c >= t) by (nonlinear_arith)
        requires
            c == t * pow2(960),
            pow2(960) > 0,
            t > 0,
    ;
    assert(v * u >= u * t) by (nonlinear_arith)
        requires
            v >= t,
            u > 0,
    ;
    let w = n * m;
    assert(w < 0x4000_0000 * 0x2_0000_0000_0000_00) by (nonlinear_arith)
        requires
            w == n * m,
            n < 0x4000_0000,
            m < 0x2_0000_0000_0000_00,
    ;
    assert(v == w * c) by (nonlinear_arith)
        requires
            v == n * (m * c),
            w == n * m,
    ;
    lemma_pow2_adds(1012, 988);
    lemma_pow2_adds(64, 924);
    lemma_pow2_adds(64, 860);
    lemma_pow2_pos(860);
    assert(pow2(988) == pow2(64) * pow2(924) && pow2(924) == pow2(64) * pow2(860));
    assert(w < pow2(64) * pow2(64)) by (nonlinear_arith)
        requires
            w < 0x4000_0000 * 0x2_0000_0000_0000_00,
            pow2(64) == 0x1_0000_0000_0000_0000,
    ;
    let z = pow2(64);
    assert(w < pow2(988)) by (nonlinear_arith)
        requires
            w < z * z,
            pow2(988) == z * pow2(924),
            pow2(924) == z * pow2(860),
            pow2(860) > 0,
            z > 0,
    ;
    assert(v < pow2(2000)) by (nonlinear_arith)
        requires
            v == w * c,
            w < pow2(988),
            pow2(2000) == c * pow2(988),
            c > 0,
    ;
    assert(v * u < u * pow2(2000)) by (nonlinear_arith)
        requires
            v < pow2(2000),
            u > 0,
    ;
}

proof fn lemma_nanos_de_milesimos(n: nat, m: nat, c: nat, u: nat, v: nat, p: nat)
    requires
        0 < n < 0x4000_0000,
        m == 4_611_686_018_427_388,
        c > 0,
        u == 0x4000_0000_0000_0000 * c,
        v == n * (m * c),
        perto((p * u) as int, (v * u) as int, 0x20_0000_0000_0000),
    ensures
        2 * (p * 1_000_000_000) < 2 * ((n * 1_000_000) * u) + u,
        2 * ((n * 1_000_000) * u) < 2 * (p * 1_000_000_000) + u,
        p < 0x1_0000_0000_0000_0000 * u,
{
    let t: int = 0x20_0000_0000_0000;
    let e = p - v;
    assert(p * u - v * u == e * u) by (nonlinear_arith)
        requires
            e == p - v,
    ;
    assert(-v <= e * t <= v) by (nonlinear_arith)
        requires
            -(v * u) <= (e * u) * t <= v * u,
            u > 0,
    ;
    // O produto exato passa do milésimo em 96 partes de 2^62.
    let k = n * c;
    assert(1000 * v == n * u + 96 * k) by (nonlinear_arith)
        requires
            v == n * (m * c),
            m == 4_611_686_018_427_388,
            u == 0x4000_0000_0000_0000 * c,
            k == n * c,
    ;
    assert(n * u == 0x4000_0000_0000_0000 * k) by (nonlinear_arith)
        requires
            u == 0x4000_0000_0000_0000 * c,
            k == n * c,
    ;
    assert(k < 0x4000_0000 * c) by (nonlinear_arith)
        requires
            k == n * c,
            n < 0x4000_0000,
            c > 0,
    ;
    assert((n * 1_000_000) * u == 1_000_000 * (n * u)) by (nonlinear_arith);
    assert(e * t == 0x20_0000_0000_0000 * e);
}

/// Um texto nunca é lido como uma duração negativa, nem como algo que não é número.
pub proof fn lei_duracao_nunca_negativa(s: Seq<char>, x: Real)
    requires
        segundos_lidos(s) == Some(x),
    ensures
        !x.nan(),
        x.negativo() ==> x.mag() == 0,
{
    let (numero, fator) = numero_e_fator(aparado(s));
    lemma_zero();
    lemma_natural_exato(1);
    lemma_natural_exato(60);
    lemma_natural_exato(3600);
    lemma_milesimo();
    if let Some(n) = lido(aparado(numero)) {
        if n.negativo() {
            assert(n.mag() == 0);
            assert(inteiro(0) == 0) by {
                assert(0 * pow2(0) == 0);
            }
            assert(0 * inteiro(fator.mag()) == 0);
            lemma_pow2_pos(1074);
            lemma_magnitude_nula(0, um());
        }
    }
}

} // verus!
