//! O que a leitura de números e nomes garante.

use vstd::arithmetic::power2::lemma_pow2_pos;
use vstd::prelude::*;
use vstd::string::*;

use crate::arredonda::INFINITO;
use crate::config::Proto;
use crate::decimais::{lemma_natural_junto, lemma_preenchidos};
use crate::decimal::{
    com_ponto, dez, digitos, lemma_dez_positivo, lemma_digitos_sao_algarismos, preenchidos,
};
use crate::grafias::{lemma_digitos_lidos, lemma_todos_algarismos};
use crate::inteiros::lei_numeral_lido;
use crate::leitura::{
    eh_algarismo, expoente_lido, lido, magnitude_decimal, minusculas, numeral_lido,
    quantos_algarismos,
};
use crate::precisao::lemma_natural_exato;
use crate::proporcao::lemma_magnitude_escala;
use crate::reais::{lemma_inteiro_positivo, um, Real};
use crate::texto::{antes, espaco, espaco_ascii};

verus! {

// ---- Números ----

/// O numeral de um natural é lido como o número mais próximo dele.
pub proof fn lei_natural_lido(n: nat)
    ensures
        lido(digitos(n)) == Some(Real::do_inteiro(n as int)),
{
    lemma_digitos_lidos(n);
}

/// Os algarismos do começo acabam no primeiro caractere que não é um.
proof fn lemma_algarismos_do_comeco(a: Seq<char>, resto: Seq<char>)
    requires
        forall|i: int| 0 <= i < a.len() ==> eh_algarismo(#[trigger] a[i]),
        resto.len() > 0,
        !eh_algarismo(resto[0]),
    ensures
        quantos_algarismos(a + resto) == a.len(),
    decreases a.len(),
{
    if a.len() > 0 {
        let b = a.drop_first();
        assert forall|i: int| 0 <= i < b.len() implies eh_algarismo(#[trigger] b[i]) by {
            assert(b[i] == a[i + 1]);
        }
        lemma_algarismos_do_comeco(b, resto);
        assert((a + resto).drop_first() =~= b + resto);
    } else {
        assert(a + resto =~= resto);
    }
}

proof fn lemma_nao_e_palavra(t: Seq<char>)
    requires
        t.len() > 0,
        eh_algarismo(t[0]),
    ensures
        minusculas(t) != "inf"@,
        minusculas(t) != "infinity"@,
        minusculas(t) != "nan"@,
{
    reveal_strlit("inf");
    reveal_strlit("infinity");
    reveal_strlit("nan");
    assert(minusculas(t)[0] == t[0]);
}

/// Um decimal com ponto é lido como a divisão dos seus algarismos pela potência de dez das casas,
/// arredondada uma vez só.
pub proof fn lei_decimal_lido(d: nat, casas: nat)
    requires
        casas > 0,
        d < 0x20_0000_0000_0000,
        dez(casas) < 0x20_0000_0000_0000,
    ensures
        lido(com_ponto(d, casas)) == Some(
            Real::do_inteiro(d as int).quociente(Real::do_inteiro(dez(casas) as int)),
        ),
{
    let p = dez(casas);
    let q = d / p;
    let r = d % p;
    let a = digitos(q);
    let b = preenchidos(r, casas);
    let t = com_ponto(d, casas);
    lemma_dez_positivo(casas);
    lemma_preenchidos(r, casas);
    lei_numeral_lido(q);
    lemma_digitos_sao_algarismos(q);
    lemma_algarismos_do_comeco(a, seq!['.'] + b);
    assert(t =~= a + (seq!['.'] + b));
    let i = a.len() as int;
    assert(t[i] == '.');
    assert(t.skip(i + 1) =~= b);
    lemma_todos_algarismos(b);
    assert(t.subrange(i + 1, i + 1 + casas) =~= b);
    assert(t.take(i) =~= a);
    assert(t.skip(i + 1 + casas) =~= Seq::<char>::empty());
    lemma_natural_junto(a, b);
    assert(q * p + r == d) by (nonlinear_arith)
        requires
            q == d / p,
            r == d % p,
            p > 0,
    ;
    assert(numeral_lido(t) == Some((d, -(casas as int))));
    assert(t[0] == a[0]);
    lemma_nao_e_palavra(t);
    let u = um();
    lemma_pow2_pos(1074);
    lemma_natural_exato(d);
    lemma_natural_exato(p);
    lemma_magnitude_escala(d * u, p, u);
    assert(p * u > 0) by (nonlinear_arith)
        requires
            p > 0,
            u > 0,
    ;
    lemma_inteiro_positivo(Real::do_inteiro(p as int).mag());
}

/// Um natural seguido de um expoente é lido como ele vezes essa potência de dez.
pub proof fn lei_expoente_lido(n: nat, k: nat)
    ensures
        lido(digitos(n) + "e"@ + digitos(k)) == Some(Real::do_inteiro((n * dez(k)) as int)),
        lido(digitos(n) + "E"@ + digitos(k)) == Some(Real::do_inteiro((n * dez(k)) as int)),
{
    reveal_strlit("e");
    reveal_strlit("E");
    lemma_com_expoente(n, "e"@, k);
    lemma_com_expoente(n, "E"@, k);
}

proof fn lemma_com_expoente(n: nat, e: Seq<char>, k: nat)
    requires
        e.len() == 1,
        e[0] == 'e' || e[0] == 'E',
    ensures
        lido(digitos(n) + e + digitos(k)) == Some(Real::do_inteiro((n * dez(k)) as int)),
{
    let a = digitos(n);
    let b = digitos(k);
    let t = a + e + b;
    lei_numeral_lido(n);
    lei_numeral_lido(k);
    lemma_digitos_sao_algarismos(n);
    lemma_digitos_sao_algarismos(k);
    lemma_algarismos_do_comeco(a, e + b);
    assert(t =~= a + (e + b));
    let i = a.len() as int;
    assert(t[i] == e[0]);
    assert(t.skip(i) =~= e + b);
    assert((e + b).skip(1) =~= b);
    assert(b[0] != '-' && b[0] != '+') by {
        assert('0' <= b[0] <= '9');
    }
    lemma_todos_algarismos(b);
    assert(expoente_lido(t.skip(i)) == Some(k as int));
    assert(t.take(i) + Seq::<char>::empty() =~= a);
    assert(numeral_lido(t) == Some((n, k as int)));
    assert(t[0] == a[0]);
    lemma_nao_e_palavra(t);
}

/// O sinal de menos dá o oposto, e o de mais não muda nada.
pub proof fn lei_sinal_lido(s: Seq<char>)
    requires
        s.len() > 0,
        s[0] != '-',
        s[0] != '+',
    ensures
        lido(s) is None <==> lido(seq!['-'] + s) is None,
        lido(seq!['+'] + s) == lido(s),
        lido(s) matches Some(x) ==> !x.negativo() || x.nan(),
        lido(s) matches Some(x) ==> !x.nan() ==> lido(seq!['-'] + s) == Some(x.oposto()),
{
    assert((seq!['-'] + s).skip(1) =~= s);
    assert((seq!['+'] + s).skip(1) =~= s);
    assert((seq!['-'] + s)[0] == '-');
    assert((seq!['+'] + s)[0] == '+');
    if let Some((d, e)) = numeral_lido(s) {
        assert(magnitude_decimal(d, e) <= INFINITO);
    }
}

/// `inf` e `infinity` são o infinito, e `nan` o que não é número, em maiúsculas ou minúsculas.
pub proof fn lei_palavras_lidas(s: Seq<char>)
    requires
        s.len() > 0,
        s[0] != '-',
        s[0] != '+',
    ensures
        minusculas(s) == "inf"@ || minusculas(s) == "infinity"@ ==> (lido(s) matches Some(x)
            && x.infinito() && !x.negativo()),
        minusculas(s) == "nan"@ ==> (lido(s) matches Some(x) && x.nan()),
{
    reveal_strlit("inf");
    reveal_strlit("infinity");
    reveal_strlit("nan");
    assert("inf"@.len() == 3 && "infinity"@.len() == 8 && "nan"@.len() == 3);
    assert("inf"@[0] != "nan"@[0]);
}

// ---- Letras ----

/// As maiúsculas ASCII passam a minúsculas, 32 posições adiante; nada mais muda.
pub proof fn lei_minusculas(s: Seq<char>, i: int)
    requires
        0 <= i < s.len(),
    ensures
        minusculas(s).len() == s.len(),
        'A' <= s[i] <= 'Z' ==> minusculas(s)[i] as u32 == s[i] as u32 + 32,
        !('A' <= s[i] <= 'Z') ==> minusculas(s)[i] == s[i],
{
}

/// Só o nome de um protocolo é lido como ele.
pub proof fn lei_so_o_protocolo(p: Proto, s: Seq<char>)
    requires
        Proto::nomeado(s) == Some(p),
    ensures
        p == Proto::Tcp ==> minusculas(s) == "tcp"@,
        p == Proto::Udp ==> minusculas(s) == "udp"@,
{
}

/// O espaço, a tabulação e as quebras de linha são espaços em branco; letras, algarismos e pontuação
/// ASCII não.
pub proof fn lei_espacos(c: char)
    ensures
        c == ' ' || c == '\t' || c == '\n' || c == '\r' ==> espaco(c) && espaco_ascii(c),
        '!' <= c <= '~' ==> !espaco(c) && !espaco_ascii(c),
        espaco_ascii(c) ==> espaco(c),
{
}

// ---- Ordem ----

/// A ordem dos textos é a do primeiro caractere em que diferem; um começo vem antes do texto inteiro.
pub proof fn lei_ordem_dos_textos(s: Seq<char>, t: Seq<char>, k: int)
    requires
        0 <= k <= s.len(),
        k <= t.len(),
        s.take(k) == t.take(k),
    ensures
        k < s.len() && k < t.len() && s[k] < t[k] ==> antes(s, t) && !antes(t, s),
        k == s.len() && k < t.len() ==> antes(s, t) && !antes(t, s),
        k == s.len() && k == t.len() ==> !antes(s, t),
    decreases k,
{
    if k > 0 {
        assert(s[0] == s.take(k)[0] && t[0] == t.take(k)[0]);
        let a = s.drop_first();
        let b = t.drop_first();
        assert(a.take(k - 1) =~= s.take(k).drop_first());
        assert(b.take(k - 1) =~= t.take(k).drop_first());
        lei_ordem_dos_textos(a, b, k - 1);
    }
}

/// O nome com que um protocolo se escreve é lido como ele.
pub proof fn lei_protocolo_escrito(p: Proto)
    ensures
        Proto::nomeado(p.escrito()) == Some(p),
{
    reveal_strlit("tcp");
    reveal_strlit("udp");
    assert(minusculas("tcp"@) =~= "tcp"@);
    assert(minusculas("udp"@) =~= "udp"@);
    assert("tcp"@[0] != "udp"@[0]);
}

} // verus!
