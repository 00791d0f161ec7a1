//! O percurso de uma mensagem: do quadro que o gerador monta à linha que o receptor grava.

use vstd::prelude::*;
use vstd::string::*;
use vstd::utf8::{encode_utf8, is_ascii_chars};

use crate::bytes::{lemma_ascii_um_byte, lemma_codificacao_injetiva};
use crate::config::{nome_permitido, permitido, NOME_MAXIMO, TAMANHO_MINIMO};
use crate::decimal::{dez, digitos, lemma_digitos_sao_algarismos, lemma_digitos_tamanho};
use crate::gerador::{
    cabecalho, do_carimbo, eh_carimbo, eh_o_quadro, enchimento_de, lemma_carimbo_ascii,
    lemma_cru_ascii, medicao, quadro_cru,
};
use crate::inteiros::{inteiro_entre, lei_numerais_distintos, lei_numeral_lido};
use crate::metricas::{
    achados, ate_o_espaco, carimbo_lido, classe_da_linha, extraidos, latencia, palavras,
    procurados, ClasseVista,
};
use crate::tabela::obtido;
use crate::texto::{
    aparado, ate, comeca, espaco, espaco_ascii, inteiro_decimal, sem_espacos_no_fim,
    sem_espacos_no_inicio,
};

verus! {

/// Quantos caracteres do corpo o receptor grava.
pub const RECORTE: usize = 90;

/// O que o receptor grava do corpo de uma mensagem.
pub open spec fn recorte(corpo: Seq<char>) -> Seq<char> {
    if corpo.len() > RECORTE {
        corpo.take(RECORTE as int)
    } else {
        corpo
    }
}

/// A linha que o receptor grava.
pub open spec fn linha_gravada(carimbo: Seq<char>, corpo: Seq<char>) -> Seq<char> {
    carimbo + " "@ + recorte(corpo)
}

proof fn lemma_palavra_inicial(a: Seq<char>, resto: Seq<char>)
    requires
        forall|i: int| 0 <= i < a.len() ==> !espaco_ascii(#[trigger] a[i]),
        resto.len() == 0 || espaco_ascii(resto[0]),
    ensures
        ate_o_espaco(a + resto) == a.len(),
    decreases a.len(),
{
    if a.len() > 0 {
        assert((a + resto).skip(1) =~= a.skip(1) + resto);
        lemma_palavra_inicial(a.skip(1), resto);
        assert((a + resto)[0] == a[0]);
    } else {
        assert(a + resto =~= resto);
    }
}

/// Uma palavra seguida de um espaço ou do fim é a primeira do texto.
proof fn lemma_primeira_palavra(a: Seq<char>, resto: Seq<char>)
    requires
        a.len() > 0,
        forall|i: int| 0 <= i < a.len() ==> !espaco_ascii(#[trigger] a[i]),
        resto.len() == 0 || espaco_ascii(resto[0]),
    ensures
        palavras(a + resto) == seq![a] + palavras(resto),
{
    lemma_palavra_inicial(a, resto);
    assert((a + resto)[0] == a[0]);
    assert((a + resto).take(a.len() as int) =~= a);
    assert((a + resto).skip(a.len() as int) =~= resto);
}

/// O corpo com os campos de medição no início, e depois enchimento.
pub open spec fn corpo_de(nome: Seq<char>, seq: u64, agora: i128, n: nat) -> Seq<char> {
    medicao(nome, seq, agora) + enchimento_de(n)
}

proof fn lemma_campos(nome: Seq<char>, seq: u64, agora: i128, n: nat)
    requires
        nome_permitido(nome),
        agora >= 0,
    ensures
        extraidos(corpo_de(nome, seq, agora, n)) == Some((nome, agora as int)),
        palavras(corpo_de(nome, seq, agora, n)).len() >= 3,
        palavras(corpo_de(nome, seq, agora, n))[0] == seq!['g', '='] + nome,
        palavras(corpo_de(nome, seq, agora, n))[1] == seq!['s', '='] + digitos(seq as nat),
{
    reveal_strlit("g=");
    reveal_strlit(" s=");
    reveal_strlit(" t=");
    let e = enchimento_de(n);
    let d = digitos(seq as nat);
    let t = inteiro_decimal(agora as int);
    let w1 = seq!['g', '='] + nome;
    let w2 = seq!['s', '='] + d;
    let w3 = seq!['t', '='] + t;
    let r3 = e;
    let r2 = seq![' '] + (w3 + r3);
    let r1 = seq![' '] + (w2 + r2);
    assert(corpo_de(nome, seq, agora, n) =~= w1 + r1);
    lemma_digitos_sao_algarismos(seq as nat);
    lemma_digitos_sao_algarismos(agora as nat);
    assert forall|i: int| 0 <= i < w1.len() implies !espaco_ascii(#[trigger] w1[i]) by {
        if i >= 2 {
            assert(w1[i] == nome[i - 2]);
            assert(permitido(nome[i - 2]));
        }
    }
    assert forall|i: int| 0 <= i < w2.len() implies !espaco_ascii(#[trigger] w2[i]) by {
        if i >= 2 {
            assert('0' <= d[i - 2] <= '9');
        }
    }
    assert forall|i: int| 0 <= i < w3.len() implies !espaco_ascii(#[trigger] w3[i]) by {
        if i >= 2 {
            assert('0' <= digitos(agora as nat)[i - 2] <= '9');
        }
    }
    lemma_primeira_palavra(w1, r1);
    lemma_primeira_palavra(w2, r2);
    lemma_primeira_palavra(w3, r3);
    assert(r1.skip(1) =~= w2 + r2);
    assert(r2.skip(1) =~= w3 + r3);
    let p3 = palavras(w3 + r3);
    let p2 = palavras(w2 + r2);
    let p1 = palavras(w1 + r1);
    assert(p1[0] == w1 && p1.skip(1) =~= p2);
    assert(p2[0] == w2 && p2.skip(1) =~= p3);
    assert(p3[0] == w3);
    assert(w1.skip(2) =~= nome);
    assert(w3.skip(2) =~= t);
    lei_numeral_lido(agora as nat);
    assert(inteiro_entre(t, i128::MIN as int, i128::MAX as int) == Some(agora as int));
    assert(achados(w1, None, None) == (Some(nome), None::<int>));
    assert(achados(w2, Some(nome), None) == (Some(nome), None::<int>));
    assert(achados(w3, Some(nome), None) == (Some(nome), Some(agora as int)));
    reveal_with_fuel(procurados, 4);
}

/// O nome do gerador e a sequência identificam a mensagem: corpos iguais são da mesma.
pub proof fn lei_mensagem_identificada(
    nome: Seq<char>,
    seq: u64,
    agora: i128,
    n: nat,
    outro_nome: Seq<char>,
    outra_seq: u64,
    outro_agora: i128,
    outro_n: nat,
)
    requires
        nome_permitido(nome),
        nome_permitido(outro_nome),
        agora >= 0,
        outro_agora >= 0,
        corpo_de(nome, seq, agora, n) == corpo_de(outro_nome, outra_seq, outro_agora, outro_n),
    ensures
        nome == outro_nome,
        seq == outra_seq,
        agora == outro_agora,
{
    lemma_campos(nome, seq, agora, n);
    lemma_campos(outro_nome, outra_seq, outro_agora, outro_n);
    let a = seq!['s', '='] + digitos(seq as nat);
    let b = seq!['s', '='] + digitos(outra_seq as nat);
    assert(a.skip(2) =~= digitos(seq as nat));
    assert(b.skip(2) =~= digitos(outra_seq as nat));
    if seq != outra_seq {
        lei_numerais_distintos(seq as nat, outra_seq as nat);
    }
}

/// O quadro de um gerador validado é o cabeçalho seguido do corpo, com os campos de medição
/// inteiros e dentro do recorte.
proof fn lemma_quadro(
    ts: Seq<char>,
    nome: Seq<char>,
    tamanho: usize,
    seq: u64,
    agora: i128,
    q: Seq<char>,
) -> (n: nat)
    requires
        is_ascii_chars(ts),
        ts.len() <= 30,
        nome_permitido(nome),
        nome.len() <= NOME_MAXIMO,
        0 <= agora < 10_000_000_000_000_000_000,
        tamanho >= TAMANHO_MINIMO,
        eh_o_quadro(q, quadro_cru(ts, nome, seq, agora), tamanho),
    ensures
        q == cabecalho(ts, nome) + corpo_de(nome, seq, agora, n),
        medicao(nome, seq, agora).len() <= 63,
{
    reveal_strlit("<134>1 ");
    reveal_strlit(" ");
    reveal_strlit(" hsb - - - ");
    reveal_strlit("g=");
    reveal_strlit(" s=");
    reveal_strlit(" t=");
    let cru = quadro_cru(ts, nome, seq, agora);
    assert(is_ascii_chars(nome)) by {
        assert forall|i: int| 0 <= i < nome.len() implies '\0' <= #[trigger] nome[i] <= '\u{7f}' by {
            assert(permitido(nome[i]));
        }
    }
    lemma_cru_ascii(ts, nome, seq, agora);
    lemma_ascii_um_byte(cru, 0);
    assert(dez(19) == 10_000_000_000_000_000_000 && u64::MAX < dez(20)) by {
        reveal_with_fuel(dez, 21);
    }
    lemma_digitos_tamanho(seq as nat, 20);
    lemma_digitos_tamanho(agora as nat, 19);
    assert(cru.len() <= 128);
    let n: nat = (tamanho - cru.len()) as nat;
    if cru.len() == tamanho {
        assert(encode_utf8(cru).take(tamanho as int) =~= encode_utf8(cru));
        lemma_codificacao_injetiva(q, cru);
        assert(q =~= cabecalho(ts, nome) + corpo_de(nome, seq, agora, 0));
    } else {
        assert(q =~= cabecalho(ts, nome) + corpo_de(nome, seq, agora, n));
    }
    n
}

/// O recorte do corpo ainda é um corpo, com menos enchimento.
proof fn lemma_recorte(nome: Seq<char>, seq: u64, agora: i128, n: nat) -> (k: nat)
    requires
        medicao(nome, seq, agora).len() <= RECORTE,
    ensures
        recorte(corpo_de(nome, seq, agora, n)) == corpo_de(nome, seq, agora, k),
{
    let m = medicao(nome, seq, agora);
    let c = corpo_de(nome, seq, agora, n);
    if c.len() > RECORTE {
        let k = (RECORTE - m.len()) as nat;
        assert(c.take(RECORTE as int) =~= corpo_de(nome, seq, agora, k));
        k
    } else {
        n
    }
}

/// O nome do gerador e o instante de envio voltam do recorte que o receptor grava do corpo, para
/// todo quadro de um gerador validado.
pub proof fn lei_medicao_recuperada(
    ts: Seq<char>,
    nome: Seq<char>,
    tamanho: usize,
    seq: u64,
    agora: i128,
    q: Seq<char>,
)
    requires
        is_ascii_chars(ts),
        ts.len() <= 30,
        nome_permitido(nome),
        nome.len() <= NOME_MAXIMO,
        0 <= agora < 10_000_000_000_000_000_000,
        tamanho >= TAMANHO_MINIMO,
        eh_o_quadro(q, quadro_cru(ts, nome, seq, agora), tamanho),
    ensures
        comeca(q, cabecalho(ts, nome)),
        extraidos(recorte(q.skip(cabecalho(ts, nome).len() as int))) == Some(
            (nome, agora as int),
        ),
{
    let n = lemma_quadro(ts, nome, tamanho, seq, agora, q);
    let c = cabecalho(ts, nome);
    assert(q.take(c.len() as int) =~= c);
    assert(q.skip(c.len() as int) =~= corpo_de(nome, seq, agora, n));
    let k = lemma_recorte(nome, seq, agora, n);
    lemma_campos(nome, seq, agora, k);
}

/// Uma palavra que não é um campo não muda o que se extrai do texto.
proof fn lemma_palavra_alheia(a: Seq<char>, resto: Seq<char>)
    requires
        a.len() > 0,
        forall|i: int| 0 <= i < a.len() ==> !espaco_ascii(#[trigger] a[i]),
        a.len() >= 2 ==> a[1] != '=',
    ensures
        extraidos(a + (seq![' '] + resto)) == extraidos(resto),
{
    let r = seq![' '] + resto;
    lemma_primeira_palavra(a, r);
    assert(r.skip(1) =~= resto);
    let ps = palavras(a + r);
    assert(ps[0] == a);
    assert(ps.skip(1) =~= palavras(resto));
}

proof fn lemma_campos_vazios(corpo: Seq<char>)
    ensures
        extraidos(" hsb - - - "@ + corpo) == extraidos(corpo),
{
    reveal_strlit(" hsb - - - ");
    let traco = seq!['-'];
    let x3 = traco + (seq![' '] + corpo);
    let x2 = traco + (seq![' '] + x3);
    let x1 = traco + (seq![' '] + x2);
    let x0 = seq!['h', 's', 'b'] + (seq![' '] + x1);
    assert(" hsb - - - "@ + corpo =~= seq![' '] + x0);
    assert((seq![' '] + x0).skip(1) =~= x0);
    lemma_palavra_alheia(seq!['h', 's', 'b'], x1);
    lemma_palavra_alheia(traco, x2);
    lemma_palavra_alheia(traco, x3);
    lemma_palavra_alheia(traco, corpo);
}

proof fn lemma_cabecalho_alheio(ts: Seq<char>, nome: Seq<char>, corpo: Seq<char>)
    requires
        eh_carimbo(ts),
        nome_permitido(nome),
    ensures
        extraidos(cabecalho(ts, nome) + corpo) == extraidos(corpo),
{
    reveal_strlit("<134>1 ");
    reveal_strlit(" ");
    let pri = seq!['<', '1', '3', '4', '>', '1'];
    let fim = " hsb - - - "@ + corpo;
    let x2 = nome + fim;
    let x1 = ts + (seq![' '] + x2);
    let x0 = pri + (seq![' '] + x1);
    assert("<134>1 "@ =~= pri + seq![' ']);
    assert(" "@ =~= seq![' ']);
    assert(cabecalho(ts, nome) + corpo =~= x0);
    assert forall|i: int| 0 <= i < ts.len() implies !espaco_ascii(#[trigger] ts[i]) && ts[i]
        != '=' by {
        assert(do_carimbo(ts[i]));
    }
    assert forall|i: int| 0 <= i < nome.len() implies !espaco_ascii(#[trigger] nome[i]) && nome[i]
        != '=' by {
        assert(permitido(nome[i]));
    }
    lemma_palavra_alheia(pri, x1);
    lemma_palavra_alheia(ts, x2);
    assert(fim =~= seq![' '] + fim.skip(1)) by {
        reveal_strlit(" hsb - - - ");
    }
    if nome.len() > 0 {
        lemma_palavra_alheia(nome, fim.skip(1));
    } else {
        assert(nome + fim =~= fim);
    }
    assert(palavras(fim) == palavras(fim.skip(1)));
    lemma_campos_vazios(corpo);
}

/// O nome do gerador e o instante de envio voltam do quadro inteiro, para todo quadro de um
/// gerador validado: nada no cabeçalho se confunde com um campo de medição.
pub proof fn lei_quadro_extraido(
    nome: Seq<char>,
    tamanho: usize,
    seq: u64,
    agora: i128,
    q: Seq<char>,
)
    requires
        nome_permitido(nome),
        nome.len() <= NOME_MAXIMO,
        0 <= agora < 10_000_000_000_000_000_000,
        tamanho >= TAMANHO_MINIMO,
        exists|ts: Seq<char>|
            #![trigger quadro_cru(ts, nome, seq, agora)]
            eh_carimbo(ts) && eh_o_quadro(q, quadro_cru(ts, nome, seq, agora), tamanho),
    ensures
        extraidos(q) == Some((nome, agora as int)),
{
    let ts = choose|ts: Seq<char>|
        #![trigger quadro_cru(ts, nome, seq, agora)]
        eh_carimbo(ts) && eh_o_quadro(q, quadro_cru(ts, nome, seq, agora), tamanho);
    lemma_carimbo_ascii(ts);
    let n = lemma_quadro(ts, nome, tamanho, seq, agora, q);
    lemma_cabecalho_alheio(ts, nome, corpo_de(nome, seq, agora, n));
    lemma_campos(nome, seq, agora, n);
}

proof fn lemma_ate(a: Seq<char>, c: char, resto: Seq<char>)
    requires
        forall|i: int| 0 <= i < a.len() ==> #[trigger] a[i] != c,
        resto.len() > 0,
        resto[0] == c,
    ensures
        ate(a + resto, c) == a.len(),
    decreases a.len(),
{
    if a.len() > 0 {
        assert((a + resto).skip(1) =~= a.skip(1) + resto);
        lemma_ate(a.skip(1), c, resto);
        assert((a + resto)[0] == a[0]);
    } else {
        assert(a + resto =~= resto);
    }
}

/// Aparar a linha gravada tira no máximo o espaço que abre o enchimento.
proof fn lemma_linha_aparada(
    carimbo: Seq<char>,
    nome: Seq<char>,
    seq: u64,
    agora: i128,
    k: nat,
) -> (j: nat)
    requires
        carimbo.len() > 0,
        forall|i: int| 0 <= i < carimbo.len() ==> !espaco(#[trigger] carimbo[i]),
        agora >= 0,
    ensures
        aparado(carimbo + " "@ + corpo_de(nome, seq, agora, k)) == carimbo + " "@ + corpo_de(
            nome,
            seq,
            agora,
            j,
        ),
{
    reveal_strlit(" ");
    let l = carimbo + " "@ + corpo_de(nome, seq, agora, k);
    let cheia = carimbo + " "@ + corpo_de(nome, seq, agora, 0);
    assert(l[0] == carimbo[0]);
    assert(sem_espacos_no_inicio(l) == l);
    lemma_digitos_sao_algarismos(agora as nat);
    let m = medicao(nome, seq, agora);
    let d = digitos(agora as nat);
    assert(m.last() == d.last());
    assert('0' <= d[d.len() - 1] <= '9');
    assert(corpo_de(nome, seq, agora, 0) =~= m);
    assert(cheia.last() == m.last());
    assert(sem_espacos_no_fim(cheia) == cheia);
    if k == 0 {
        0
    } else if k == 1 {
        assert(l.last() == ' ');
        assert(l.drop_last() =~= cheia);
        0
    } else {
        assert(l.last() == 'A');
        k
    }
}

/// A linha que o receptor grava de um quadro de um gerador validado conta como mensagem desse
/// gerador, enviada no instante em que o quadro foi montado: só o carimbo do receptor pode
/// torná-la ilegível, e só o fim do aquecimento pode descartá-la.
pub proof fn lei_linha_classificada(
    carimbo: Seq<char>,
    ts: Seq<char>,
    nome: Seq<char>,
    tamanho: usize,
    seq: u64,
    agora: i128,
    q: Seq<char>,
    inicio: Seq<(Seq<char>, i128)>,
)
    requires
        carimbo.len() > 0,
        forall|i: int| 0 <= i < carimbo.len() ==> !espaco(#[trigger] carimbo[i]),
        is_ascii_chars(ts),
        ts.len() <= 30,
        nome_permitido(nome),
        nome.len() <= NOME_MAXIMO,
        0 <= agora < 10_000_000_000_000_000_000,
        tamanho >= TAMANHO_MINIMO,
        eh_o_quadro(q, quadro_cru(ts, nome, seq, agora), tamanho),
    ensures
        classe_da_linha(
            linha_gravada(carimbo, q.skip(cabecalho(ts, nome).len() as int)),
            inicio,
        ) == match carimbo_lido(carimbo) {
            Some(Some(ns)) => match obtido(inicio, nome) {
                Some(limite) => if agora < limite {
                    ClasseVista::Aquecimento
                } else {
                    ClasseVista::Recebida { gerador: nome, latencia_us: latencia(ns, agora) }
                },
                None => ClasseVista::Recebida { gerador: nome, latencia_us: latencia(ns, agora) },
            },
            _ => ClasseVista::Invalida,
        },
{
    reveal_strlit(" ");
    let n = lemma_quadro(ts, nome, tamanho, seq, agora, q);
    assert(q.skip(cabecalho(ts, nome).len() as int) =~= corpo_de(nome, seq, agora, n));
    let k = lemma_recorte(nome, seq, agora, n);
    let j = lemma_linha_aparada(carimbo, nome, seq, agora, k);
    let corpo = corpo_de(nome, seq, agora, j);
    let l = carimbo + " "@ + corpo;
    assert(l =~= carimbo + (" "@ + corpo));
    assert forall|i: int| 0 <= i < carimbo.len() implies #[trigger] carimbo[i] != ' ' by {
        assert(!espaco(carimbo[i]));
    }
    lemma_ate(carimbo, ' ', " "@ + corpo);
    assert(l.take(carimbo.len() as int) =~= carimbo);
    assert(l.skip(carimbo.len() as int + 1) =~= corpo);
    lemma_campos(nome, seq, agora, j);
}

} // verus!
