//! O que os quadros e a despedida de um gerador garantem.

use vstd::prelude::*;
use vstd::string::*;
use vstd::utf8::encode_utf8;

use crate::decimal::{digitos, lemma_digitos_sao_algarismos};
use crate::duracao::Duracao;
use crate::gerador::{
    cabecalho, despedida_escrita, duracao_utilizavel, eh_o_quadro, enchimento_de, medicao,
    nome_do_arquivo, quadro_cru, threads_usadas, RelatorioGerador,
};
use crate::grafias::lemma_nanos_de_segundos;
use crate::inteiros::{inteiro_escrito, lei_numeral_lido};
use crate::medidas::{lei_palavra_sozinha, lei_palavras_separadas};
use crate::metricas::palavras;
use crate::numerais::escrito;
use crate::proporcao::lemma_zero;
use crate::reais::Real;
use crate::texto::{comeca, contem, espaco_ascii, inteiro_decimal};
use crate::trechos::{lemma_contem_em, lemma_no_meio};

verus! {

// ---- Numerais ----

/// O numeral de um inteiro é lido como esse inteiro, com o sinal.
pub proof fn lei_inteiro_lido(n: int)
    ensures
        inteiro_escrito(inteiro_decimal(n)) == Some(n),
        inteiro_decimal(n).len() > 0,
        forall|i: int|
            0 <= i < inteiro_decimal(n).len() ==> !espaco_ascii(#[trigger] inteiro_decimal(n)[i]),
{
    reveal_strlit("-");
    if n < 0 {
        let d = digitos((-n) as nat);
        lei_numeral_lido((-n) as nat);
        lemma_digitos_sao_algarismos((-n) as nat);
        let s = inteiro_decimal(n);
        assert(s.skip(1) =~= d);
        assert forall|i: int| 0 <= i < s.len() implies !espaco_ascii(#[trigger] s[i]) by {
            if i > 0 {
                assert(s[i] == d[i - 1]);
            }
        }
    } else {
        lei_numeral_lido(n as nat);
        lemma_digitos_sao_algarismos(n as nat);
    }
}

// ---- Quadros ----

/// Se o texto é uma palavra: não é vazio nem tem espaços.
pub open spec fn eh_palavra(s: Seq<char>) -> bool {
    s.len() > 0 && forall|i: int| 0 <= i < s.len() ==> !espaco_ascii(#[trigger] s[i])
}

proof fn lemma_mais_uma_palavra(a: Seq<char>, w: Seq<char>)
    requires
        eh_palavra(w),
    ensures
        palavras(a + seq![' '] + w) == palavras(a).push(w),
{
    lei_palavra_sozinha(w);
    lei_palavras_separadas(a, ' ', w);
    assert(palavras(a) + seq![w] =~= palavras(a).push(w));
}

/// As palavras de um quadro são a prioridade e a versão, o carimbo, o nome do gerador, `hsb`, os três
/// campos vazios e, no corpo, o gerador, a sequência e o instante.
pub proof fn lei_palavras_do_quadro(ts: Seq<char>, nome: Seq<char>, seq: u64, agora: i128)
    requires
        eh_palavra(ts),
        eh_palavra(nome),
    ensures
        palavras(quadro_cru(ts, nome, seq, agora)) == seq![
            "<134>1"@,
            ts,
            nome,
            "hsb"@,
            "-"@,
            "-"@,
            "-"@,
            "g="@ + nome,
            "s="@ + digitos(seq as nat),
            "t="@ + inteiro_decimal(agora as int),
        ],
{
    let e = seq![' '];
    let g = "g="@ + nome;
    let s = "s="@ + digitos(seq as nat);
    let t = "t="@ + inteiro_decimal(agora as int);
    lemma_digitos_sao_algarismos(seq as nat);
    lei_inteiro_lido(agora as int);
    reveal_strlit("<134>1");
    reveal_strlit("hsb");
    reveal_strlit("-");
    reveal_strlit("g=");
    reveal_strlit("s=");
    reveal_strlit("t=");
    assert(eh_palavra("<134>1"@));
    assert(eh_palavra("hsb"@));
    assert(eh_palavra("-"@));
    assert(eh_palavra(g)) by {
        assert forall|i: int| 0 <= i < g.len() implies !espaco_ascii(#[trigger] g[i]) by {
            if i >= 2 {
                assert(g[i] == nome[i - 2]);
            }
        }
    }
    assert(eh_palavra(s)) by {
        let d = digitos(seq as nat);
        assert forall|i: int| 0 <= i < s.len() implies !espaco_ascii(#[trigger] s[i]) by {
            if i >= 2 {
                assert(s[i] == d[i - 2]);
            }
        }
    }
    assert(eh_palavra(t)) by {
        let d = inteiro_decimal(agora as int);
        assert forall|i: int| 0 <= i < t.len() implies !espaco_ascii(#[trigger] t[i]) by {
            if i >= 2 {
                assert(t[i] == d[i - 2]);
            }
        }
    }
    let s1 = "<134>1"@ + e + ts;
    let s2 = s1 + e + nome;
    let s3 = s2 + e + "hsb"@;
    let s4 = s3 + e + "-"@;
    let s5 = s4 + e + "-"@;
    let s6 = s5 + e + "-"@;
    let s7 = s6 + e + g;
    let s8 = s7 + e + s;
    let s9 = s8 + e + t;
    lei_palavra_sozinha("<134>1"@);
    lemma_mais_uma_palavra("<134>1"@, ts);
    lemma_mais_uma_palavra(s1, nome);
    lemma_mais_uma_palavra(s2, "hsb"@);
    lemma_mais_uma_palavra(s3, "-"@);
    lemma_mais_uma_palavra(s4, "-"@);
    lemma_mais_uma_palavra(s5, "-"@);
    lemma_mais_uma_palavra(s6, g);
    lemma_mais_uma_palavra(s7, s);
    lemma_mais_uma_palavra(s8, t);
    lemma_cabecalho_partido(ts, nome);
    lemma_medicao_partida(s6 + e, nome, seq, agora);
    assert(palavras(s9) =~= seq![
        "<134>1"@,
        ts,
        nome,
        "hsb"@,
        "-"@,
        "-"@,
        "-"@,
        g,
        s,
        t,
    ]);
}

proof fn lemma_cabecalho_partido(ts: Seq<char>, nome: Seq<char>)
    ensures
        ({
            let e = seq![' '];
            cabecalho(ts, nome) == "<134>1"@ + e + ts + e + nome + e + "hsb"@ + e + "-"@ + e + "-"@
                + e + "-"@ + e
        }),
{
    let e = seq![' '];
    reveal_strlit("<134>1");
    reveal_strlit("<134>1 ");
    reveal_strlit(" ");
    reveal_strlit("hsb");
    reveal_strlit("-");
    reveal_strlit(" hsb - - - ");
    assert("<134>1 "@ =~= "<134>1"@ + e);
    assert(" "@ =~= e);
    let h = e + "hsb"@ + e + "-"@ + e + "-"@ + e + "-"@ + e;
    assert(" hsb - - - "@ =~= h);
    let p = "<134>1"@ + e + ts + e + nome;
    let hsb = "hsb"@;
    let x = "-"@;
    assert(p + e + hsb =~= p + (e + hsb));
    assert(p + (e + hsb) + e =~= p + (e + hsb + e));
    assert(p + (e + hsb + e) + x =~= p + (e + hsb + e + x));
    assert(p + (e + hsb + e + x) + e =~= p + (e + hsb + e + x + e));
    assert(p + (e + hsb + e + x + e) + x =~= p + (e + hsb + e + x + e + x));
    assert(p + (e + hsb + e + x + e + x) + e =~= p + (e + hsb + e + x + e + x + e));
    assert(p + (e + hsb + e + x + e + x + e) + x =~= p + (e + hsb + e + x + e + x + e + x));
    assert(p + (e + hsb + e + x + e + x + e + x) + e =~= p + h);
}

proof fn lemma_medicao_partida(p: Seq<char>, nome: Seq<char>, seq: u64, agora: i128)
    ensures
        ({
            let e = seq![' '];
            p + medicao(nome, seq, agora) == p + ("g="@ + nome) + e + ("s="@ + digitos(seq as nat))
                + e + ("t="@ + inteiro_decimal(agora as int))
        }),
{
    let e = seq![' '];
    let d = digitos(seq as nat);
    let i = inteiro_decimal(agora as int);
    let g = "g="@ + nome;
    reveal_strlit(" s=");
    reveal_strlit("s=");
    reveal_strlit(" t=");
    reveal_strlit("t=");
    assert(" s="@ =~= e + "s="@);
    assert(" t="@ =~= e + "t="@);
    assert(g + (e + "s="@) + d =~= g + e + ("s="@ + d));
    let h = g + e + ("s="@ + d);
    assert(h + (e + "t="@) + i =~= h + e + ("t="@ + i));
    assert(p + g + e =~= p + (g + e));
    assert(p + (g + e) + ("s="@ + d) =~= p + h);
    assert(p + h + e =~= p + (h + e));
    assert(p + (h + e) + ("t="@ + i) =~= p + (h + e + ("t="@ + i)));
}

/// Um quadro menor que o tamanho começa por ele inteiro e se completa com um espaço e letras `A`; um
/// maior é cortado: os seus bytes são os primeiros dele.
pub proof fn lei_tamanho_do_quadro(q: Seq<char>, cru: Seq<char>, tamanho: usize)
    requires
        eh_o_quadro(q, cru, tamanho),
    ensures
        encode_utf8(cru).len() < tamanho ==> {
            &&& comeca(q, cru)
            &&& q.len() == cru.len() + (tamanho - encode_utf8(cru).len())
            &&& q[cru.len() as int] == ' '
            &&& forall|i: int| cru.len() < i < q.len() ==> #[trigger] q[i] == 'A'
        },
        encode_utf8(cru).len() >= tamanho ==> encode_utf8(q).len() == tamanho && forall|i: int|
            0 <= i < tamanho ==> #[trigger] encode_utf8(q)[i] == encode_utf8(cru)[i],
{
    let n = encode_utf8(cru).len();
    if n < tamanho {
        let resto = enchimento_de((tamanho - n) as nat);
        assert(q.take(cru.len() as int) =~= cru);
        assert forall|i: int| cru.len() < i < q.len() implies #[trigger] q[i] == 'A' by {
            assert(q[i] == resto[i - cru.len()]);
        }
    }
}

// ---- Preparação ----

/// Sem total, só uma duração que não é negativa pode ser usada; com um total, uma que é zero ou negativa
/// não limita o teste. Segundos inteiros sempre podem.
pub proof fn lei_duracao_utilizavel(total: u64, x: Real, n: nat)
    requires
        n < 0x20_0000_0000_0000,
    ensures
        duracao_utilizavel(total, Real::do_inteiro(n as int)),
        x.negativo() && x.mag() > 0 && !x.nan() ==> (duracao_utilizavel(total, x) <==> total > 0),
        x.nan() ==> !duracao_utilizavel(total, x),
        x.infinito() && !x.negativo() ==> !duracao_utilizavel(total, x),
{
    lemma_nanos_de_segundos(n);
    lemma_zero();
}

/// Um gerador usa as threads pedidas, e pelo menos uma.
pub proof fn lei_threads_usadas(threads: usize)
    ensures
        threads_usadas(threads) >= 1,
        threads >= 1 ==> threads_usadas(threads) == threads,
        threads == 0 ==> threads_usadas(threads) == 1,
{
}

// ---- Relatório ----

/// Geradores diferentes gravam em arquivos diferentes.
pub proof fn lei_arquivos_distintos(a: Seq<char>, b: Seq<char>)
    requires
        nome_do_arquivo(a) == nome_do_arquivo(b),
    ensures
        a == b,
{
    let n = "gerador-"@.len() as int;
    let s = nome_do_arquivo(a);
    let m = ".json"@.len() as int;
    assert(s.subrange(n, s.len() - m) =~= a);
    assert(s.subrange(n, s.len() - m) =~= b);
}

/// A despedida diz o nome do gerador, quantas mensagens ele enviou, em quantos segundos, a que taxa e com
/// quantos erros.
pub proof fn lei_despedida(r: RelatorioGerador, decorrido: Duracao)
    ensures
        ({
            let s = despedida_escrita(r, decorrido);
            &&& contem(s, "gerador "@ + r.nome@ + ": "@)
            &&& contem(s, ": "@ + digitos(r.enviadas_total as nat) + " mensagens em "@)
            &&& contem(s, " mensagens em "@ + escrito(decorrido.segundos_reais(), 1, false) + "s ("@)
            &&& contem(s, "s ("@ + escrito(r.taxa_real, 0, false) + " msg/s), "@)
            &&& contem(s, " msg/s), "@ + digitos(r.erros_envio as nat) + " erros"@)
        }),
{
    lemma_partes_da_despedida(
        "gerador "@,
        r.nome@,
        ": "@,
        digitos(r.enviadas_total as nat),
        " mensagens em "@,
        escrito(decorrido.segundos_reais(), 1, false),
        "s ("@,
        escrito(r.taxa_real, 0, false),
        " msg/s), "@,
        digitos(r.erros_envio as nat),
        " erros"@,
    );
}

proof fn lemma_partes_da_despedida(
    a: Seq<char>,
    b: Seq<char>,
    c: Seq<char>,
    d: Seq<char>,
    e: Seq<char>,
    f: Seq<char>,
    g: Seq<char>,
    h: Seq<char>,
    i: Seq<char>,
    j: Seq<char>,
    k: Seq<char>,
)
    ensures
        ({
            let s = a + b + c + d + e + f + g + h + i + j + k;
            &&& contem(s, a + b + c)
            &&& contem(s, c + d + e)
            &&& contem(s, e + f + g)
            &&& contem(s, g + h + i)
            &&& contem(s, i + j + k)
        }),
{
    let vazio = Seq::<char>::empty();
    assert(vazio + a + b + c =~= a + b + c);
    let p1 = a + b;
    let p2 = p1 + c + d;
    let p3 = p2 + e + f;
    let p4 = p3 + g + h;
    lemma_tres_ao_fim(vazio, a, b, c);
    lemma_duas_a_mais(p1 + c, d, e, a + b + c);
    lemma_duas_a_mais(p2 + e, f, g, a + b + c);
    lemma_duas_a_mais(p3 + g, h, i, a + b + c);
    lemma_duas_a_mais(p4 + i, j, k, a + b + c);
    lemma_tres_ao_fim(p1, c, d, e);
    lemma_duas_a_mais(p2 + e, f, g, c + d + e);
    lemma_duas_a_mais(p3 + g, h, i, c + d + e);
    lemma_duas_a_mais(p4 + i, j, k, c + d + e);
    lemma_tres_ao_fim(p2, e, f, g);
    lemma_duas_a_mais(p3 + g, h, i, e + f + g);
    lemma_duas_a_mais(p4 + i, j, k, e + f + g);
    lemma_tres_ao_fim(p3, g, h, i);
    lemma_duas_a_mais(p4 + i, j, k, g + h + i);
    lemma_tres_ao_fim(p4, i, j, k);
}

proof fn lemma_tres_ao_fim(p: Seq<char>, a: Seq<char>, b: Seq<char>, c: Seq<char>)
    ensures
        contem(p + a + b + c, a + b + c),
{
    let fim = a + b + c;
    assert(p + a + b =~= p + (a + b));
    assert(p + (a + b) + c =~= p + fim);
    assert(p + fim =~= p + fim + Seq::empty());
    lemma_no_meio(p, fim, Seq::empty());
}

proof fn lemma_duas_a_mais(s: Seq<char>, x: Seq<char>, y: Seq<char>, t: Seq<char>)
    requires
        contem(s, t),
    ensures
        contem(s + x + y, t),
{
    lemma_contem_em(Seq::empty(), s, x + y, t);
    assert(s + x + y =~= Seq::empty() + s + (x + y));
}

} // verus!
