//! O que os números escritos para o usuário garantem: lidos de volta, dão o que se mediu.

use vstd::prelude::*;
use vstd::string::*;

use crate::balanco::{lemma_razao, lemma_unidade};
use crate::decimais::{decimal_lido, lei_decimal_mais_proximo, lei_sinal_do_decimal};
use crate::decimal::{algarismo, dez, digitos};
use crate::inteiros::lei_numeral_lido;
use crate::numerais::escrito;
use crate::precisao::{lei_ordem_dos_naturais, lemma_mais_perto, lemma_natural_exato};
use crate::reais::{inteiro, um, Real};
use crate::relatorio::{
    com_milhares, em_decimal, em_latencia, em_milhares, em_pct, em_pct_com_sinal,
};
use crate::texto::{a_direita, a_esquerda, com_virgula};

verus! {

// ---- Milhares ----

/// Abaixo de mil o numeral não muda; de mil em diante são os milhares, um ponto e os três algarismos
/// do resto.
pub proof fn lei_milhares(n: u64)
    ensures
        n < 1000 ==> com_milhares(n) == digitos(n as nat),
        n >= 1000 ==> com_milhares(n) == com_milhares(n / 1000) + "."@ + seq![
            algarismo(n as nat / 100 % 10),
            algarismo(n as nat / 10 % 10),
            algarismo(n as nat % 10),
        ],
{
    let d = n as nat;
    reveal_with_fuel(digitos, 4);
    if n < 1000 {
        assert(digitos(d).len() <= 3);
    } else {
        let resto = seq![algarismo(d / 100 % 10), algarismo(d / 10 % 10), algarismo(d % 10)];
        let alto = digitos(d / 1000);
        assert(d / 10 / 10 == d / 100 && d / 100 / 10 == d / 1000);
        assert(digitos(d / 100) == digitos(d / 1000).push(algarismo(d / 100 % 10)));
        assert(digitos(d / 10) == digitos(d / 100).push(algarismo(d / 10 % 10)));
        assert(digitos(d) =~= alto + resto);
        lei_numeral_lido(d / 1000);
        let s = digitos(d);
        assert(s.take(s.len() - 3) =~= alto);
        assert(s.skip(s.len() - 3) =~= resto);
    }
}

// ---- Vírgula ----

/// A vírgula decimal só toma o lugar do ponto.
pub proof fn lei_virgula(s: Seq<char>)
    ensures
        com_virgula(s).len() == s.len(),
        forall|i: int|
            0 <= i < s.len() ==> #[trigger] com_virgula(s)[i] == if s[i] == '.' {
                ','
            } else {
                s[i]
            },
{
}

/// O natural que se lê de um decimal não depende do separador.
proof fn lemma_decimal_com_virgula(t: Seq<char>, sufixo: Seq<char>, casas: nat)
    requires
        casas > 0,
        t.len() > casas + 1,
        t[t.len() - casas - 1] == '.',
        forall|i: int|
            0 <= i < t.len() && i != t.len() - casas - 1 ==> '0' <= #[trigger] t[i] <= '9',
        forall|i: int| 0 <= i < sufixo.len() ==> #[trigger] sufixo[i] != '.',
    ensures
        ({
            let v = com_virgula(t + sufixo);
            let n = t.len() as int;
            &&& v.len() == n + sufixo.len()
            &&& v[n - casas - 1] == ','
            &&& v.skip(n) == sufixo
            &&& decimal_lido(v.take(n), casas) == decimal_lido(t, casas)
        }),
{
    let v = com_virgula(t + sufixo);
    let n = t.len() as int;
    let w = v.take(n);
    assert(v.skip(n) =~= sufixo);
    assert(w.take(n - casas - 1) =~= t.take(n - casas - 1));
    assert(w.skip(n - casas) =~= t.skip(n - casas));
}

/// Se o texto é um decimal com vírgula, `casas` casas e esse sufixo, e lido sem a vírgula dá `d`.
pub open spec fn le_se(v: Seq<char>, casas: nat, sufixo: Seq<char>, d: nat) -> bool {
    let n = v.len() - sufixo.len();
    &&& n > casas + 1
    &&& v[n - casas - 1] == ','
    &&& v.skip(n) == sufixo
    &&& decimal_lido(v.take(n), casas) == d
}

/// O decimal mais próximo de um número finito e não negativo, escrito com vírgula.
proof fn lemma_escrito_com_virgula(x: Real, casas: nat, sufixo: Seq<char>) -> (d: nat)
    requires
        casas > 0,
        x.finito(),
        !x.negativo(),
        forall|i: int| 0 <= i < sufixo.len() ==> #[trigger] sufixo[i] != '.',
    ensures
        le_se(com_virgula(escrito(x, casas, false) + sufixo), casas, sufixo, d),
        -(um() as int) <= 2 * (d * um() - inteiro(x.mag()) * dez(casas)) <= um(),
{
    let t = escrito(x, casas, false);
    lei_decimal_mais_proximo(x, casas);
    let a = t.take(t.len() - casas - 1);
    let b = t.skip(t.len() - casas);
    assert forall|i: int| 0 <= i < t.len() && i != t.len() - casas - 1 implies '0'
        <= #[trigger] t[i] <= '9' by {
        if i < t.len() - casas - 1 {
            assert(t[i] == a[i]);
        } else {
            assert(t[i] == b[i - (t.len() - casas)]);
        }
    }
    lemma_decimal_com_virgula(t, sufixo, casas);
    decimal_lido(t, casas)
}

/// Um percentual é o número com duas casas, o mais próximo, e o sinal de porcento.
pub proof fn lei_percentual(x: Real) -> (d: nat)
    requires
        x.finito(),
        !x.negativo(),
    ensures
        le_se(em_pct(x), 2, "%"@, d),
        em_pct_com_sinal(x) == seq!['+'] + em_pct(x),
        -(um() as int) <= 2 * (d * um() - inteiro(x.mag()) * 100) <= um(),
{
    reveal_strlit("%");
    lei_sinal_do_decimal(x, 2);
    let t = escrito(x, 2, false) + "%"@;
    assert(escrito(x, 2, true) + "%"@ =~= seq!['+'] + t);
    assert(com_virgula(seq!['+'] + t) =~= seq!['+'] + com_virgula(t));
    assert(dez(2) == 100) by {
        reveal_with_fuel(dez, 3);
    }
    lemma_escrito_com_virgula(x, 2, "%"@)
}

/// Um percentual negativo é o do seu oposto, com o sinal de menos.
pub proof fn lei_percentual_negativo(x: Real)
    requires
        !x.nan(),
        x.negativo(),
    ensures
        em_pct(x) == seq!['-'] + em_pct(x.absoluto()),
        em_pct_com_sinal(x) == em_pct(x),
{
    lei_sinal_do_decimal(x, 2);
    let t = escrito(x.absoluto(), 2, false) + "%"@;
    assert(escrito(x, 2, false) + "%"@ =~= seq!['-'] + t);
    assert(com_virgula(seq!['-'] + t) =~= seq!['-'] + com_virgula(t));
}

/// Um decimal com uma casa é o mais próximo do número.
pub proof fn lei_uma_casa(x: Real) -> (d: nat)
    requires
        x.finito(),
        !x.negativo(),
    ensures
        le_se(em_decimal(x, 1), 1, Seq::empty(), d),
        -(um() as int) <= 2 * (d * um() - inteiro(x.mag()) * 10) <= um(),
{
    assert(dez(1) == 10) by {
        reveal_with_fuel(dez, 2);
    }
    let t = escrito(x, 1, false);
    assert(t + Seq::<char>::empty() =~= t);
    lemma_escrito_com_virgula(x, 1, Seq::empty())
}

// ---- Unidades ----

/// O decimal mais próximo de `n / escala`, em passos de `escala / dez(casas)`.
proof fn lemma_escala(n: nat, escala: nat, casas: nat, passo: nat, d: nat)
    requires
        0 < n < 0x4_0000_0000_0000,
        0 < escala <= 1_000_000,
        0 < passo,
        escala == passo * dez(casas),
        ({
            let x = Real::do_inteiro(n as int).quociente(Real::do_inteiro(escala as int));
            -(um() as int) <= 2 * (d * um() - inteiro(x.mag()) * dez(casas)) <= um()
        }),
    ensures
        -(passo as int) <= 2 * (d * passo - n) <= passo,
{
    let x = Real::do_inteiro(n as int).quociente(Real::do_inteiro(escala as int));
    let u = um() as int;
    let t: int = 0x20_0000_0000_0000;
    let xi = inteiro(x.mag()) as int;
    let p = passo as int;
    let c = dez(casas) as int;
    lemma_unidade();
    lemma_razao(n, escala);
    let g = d * u - xi * c;
    let e = xi * escala - n * u;
    assert(-u < 8 * e < u) by (nonlinear_arith)
        requires
            -(n * u) <= e * t <= n * u,
            0 < n < 0x4_0000_0000_0000,
            t == 0x20_0000_0000_0000,
            u > 0,
    ;
    let dif = d * p - n;
    assert(dif * u == g * p + e) by (nonlinear_arith)
        requires
            dif == d * p - n,
            g == d * u - xi * c,
            e == xi * escala - n * u,
            escala == p * c,
    ;
    assert(4 * dif <= 2 * p && 4 * dif >= -(2 * p)) by (nonlinear_arith)
        requires
            dif * u == g * p + e,
            -u <= 2 * g <= u,
            -u < 8 * e < u,
            p > 0,
            u > 0,
    ;
}

/// Uma latência se escreve em microssegundos abaixo de um milissegundo, em milissegundos com uma casa
/// abaixo de um segundo, e em segundos com duas casas daí em diante; o que se lê é o mais próximo. A
/// que falta é um traço.
pub proof fn lei_latencia_escrita(us: u64) -> (d: nat)
    requires
        us < 0x4_0000_0000_0000,
    ensures
        us == 0 ==> em_latencia(us) == "-"@,
        0 < us < 1_000 ==> em_latencia(us) == digitos(us as nat) + "µs"@,
        1_000 <= us < 1_000_000 ==> le_se(em_latencia(us), 1, "ms"@, d) && -100 <= 2 * (d * 100 - us)
            <= 100,
        us >= 1_000_000 ==> le_se(em_latencia(us), 2, "s"@, d) && -10_000 <= 2 * (d * 10_000 - us)
            <= 10_000,
{
    reveal_strlit("ms");
    reveal_strlit("s");
    reveal_with_fuel(dez, 3);
    assert(dez(1) == 10 && dez(2) == 100);
    if 1_000 <= us < 1_000_000 {
        lemma_razao(us as nat, 1000);
        let x = Real::do_inteiro(us as int).quociente(Real::do_inteiro(1000));
        let d = lemma_escrito_com_virgula(x, 1, "ms"@);
        lemma_escala(us as nat, 1000, 1, 100, d);
        d
    } else if us >= 1_000_000 {
        lemma_razao(us as nat, 1_000_000);
        let x = Real::do_inteiro(us as int).quociente(Real::do_inteiro(1_000_000));
        let d = lemma_escrito_com_virgula(x, 2, "s"@);
        lemma_escala(us as nat, 1_000_000, 2, 10_000, d);
        d
    } else {
        0
    }
}

/// Uma taxa inteira se escreve por extenso abaixo de mil, e em milhares com uma casa daí em diante.
pub proof fn lei_taxa_escrita(n: nat) -> (d: nat)
    requires
        n < 0x4_0000_0000_0000,
    ensures
        n < 1000 ==> em_milhares(Real::do_inteiro(n as int)) == digitos(n),
        n >= 1000 ==> le_se(em_milhares(Real::do_inteiro(n as int)), 1, "k"@, d) && -100 <= 2 * (d
            * 100 - n) <= 100,
{
    let x = Real::do_inteiro(n as int);
    let mil = Real::do_inteiro(1000);
    let u = um() as int;
    reveal_strlit("k");
    reveal_with_fuel(dez, 2);
    assert(dez(1) == 10);
    lemma_unidade();
    lemma_natural_exato(n);
    lemma_natural_exato(1000);
    lei_ordem_dos_naturais(1000, n);
    if n >= 1000 {
        lemma_razao(n, 1000);
        let y = x.quociente(mil);
        let d = lemma_escrito_com_virgula(y, 1, "k"@);
        lemma_escala(n, 1000, 1, 100, d);
        d
    } else {
        let v = inteiro(x.mag()) * dez(0);
        assert(v == n * um()) by (nonlinear_arith)
            requires
                v == inteiro(x.mag()) * dez(0),
                dez(0) == 1,
                inteiro(x.mag()) == n * um(),
        ;
        lemma_mais_perto(v, um(), n);
        assert(escrito(x, 0, false) =~= digitos(n));
        0
    }
}

// ---- Colunas ----

/// Um texto numa coluna ocupa a largura dela, ou mais se não cabe: à esquerda os espaços vêm depois, à
/// direita antes, e nada dele se perde.
pub proof fn lei_colunas(s: Seq<char>, w: nat)
    ensures
        a_esquerda(s, w).len() == if s.len() < w {
            w
        } else {
            s.len()
        },
        a_direita(s, w).len() == a_esquerda(s, w).len(),
        a_esquerda(s, w).take(s.len() as int) == s,
        a_direita(s, w).skip(a_direita(s, w).len() - s.len()) == s,
        forall|i: int| s.len() <= i < w ==> #[trigger] a_esquerda(s, w)[i] == ' ',
        forall|i: int| 0 <= i < w - s.len() ==> #[trigger] a_direita(s, w)[i] == ' ',
{
    assert(a_esquerda(s, w).take(s.len() as int) =~= s);
    assert(a_direita(s, w).skip(a_direita(s, w).len() - s.len()) =~= s);
}

} // verus!
