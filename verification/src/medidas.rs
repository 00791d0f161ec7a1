//! O que as medições garantem: latências, campos, classes e contadores.

use vstd::multiset::Multiset;
use vstd::prelude::*;
use vstd::string::*;

use crate::inteiros::inteiro_entre;
use crate::json::{
    natural_do_membro, numero_do_membro, objeto_lido, texto_do_membro, EscalarVisto,
};
use crate::metricas::{
    achados, amostras_das_linhas, anomalias, ate_o_espaco, carimbo_lido, classe_da_linha,
    classe_do_corpo, classes, com_amostra, do_aquecimento, extraidos, invalidas, latencia,
    latencias, palavras, procurados, recebidas, recebidas_de, vazias, AmostrasVistas, ClasseVista,
};
use crate::tabela::{lei_obtido_inserido, obtido};
use crate::texto::{
    aparado, ate, comeca, contem, espaco, espaco_ascii, sem_espacos_no_fim, sem_espacos_no_inicio,
};

verus! {

// ---- Latências ----

/// A latência é o tempo decorrido em microssegundos inteiros: ao menos um, no máximo os de um
/// minuto, e nenhuma quando o recebimento é anterior ao envio.
pub proof fn lei_latencia_em_microssegundos(recebido: i64, envio: i128)
    requires
        i128::MIN <= recebido - envio <= i128::MAX,
    ensures
        ({
            let d = recebido - envio;
            let l = latencia(recebido, envio);
            &&& l is None <==> d < 0
            &&& 0 <= d < 1000 ==> l == Some(1u64)
            &&& 1000 <= d <= 60_000_000_000 ==> l->0 * 1000 <= d < (l->0 + 1) * 1000
            &&& d > 60_000_000_000 ==> l == Some(60_000_000u64)
        }),
{
}

/// Quem chega mais tarde não tem latência menor.
pub proof fn lei_latencia_cresce(recebido: i64, depois: i64, envio: i128)
    requires
        recebido <= depois,
        i128::MIN <= recebido - envio,
        depois - envio <= i128::MAX,
    ensures
        latencia(recebido, envio) matches Some(a) ==> (latencia(depois, envio) matches Some(b) && a
            <= b),
{
}

// ---- Campos ----

/// A palavra de um campo: o nome dele, `=` e o valor.
spec fn do_campo(palavra: Seq<char>, campo: char) -> bool {
    palavra.len() >= 2 && palavra[0] == campo && palavra[1] == '='
}

proof fn lemma_campos_a_partir_de(ps: Seq<Seq<char>>, i: int, j: int, k: int, envio: int)
    requires
        0 <= i < ps.len(),
        0 <= j < ps.len(),
        0 <= k <= ps.len(),
        k <= i + 1 || k <= j + 1,
        do_campo(ps[i], 'g'),
        do_campo(ps[j], 't'),
        inteiro_entre(ps[j].skip(2), i128::MIN as int, i128::MAX as int) == Some(envio),
        forall|n: int|
            0 <= n < ps.len() && n != i && n != j ==> !do_campo(#[trigger] ps[n], 'g') && !do_campo(
                ps[n],
                't',
            ),
    ensures
        procurados(
            ps.skip(k),
            if i < k {
                Some(ps[i].skip(2))
            } else {
                None
            },
            if j < k {
                Some(envio)
            } else {
                None
            },
        ) == Some((ps[i].skip(2), envio)),
    decreases ps.len() - k,
{
    let g = if i < k {
        Some(ps[i].skip(2))
    } else {
        None
    };
    let t = if j < k {
        Some(envio)
    } else {
        None
    };
    if !(i < k && j < k) {
        assert(k < ps.len());
        let s = ps.skip(k);
        assert(s[0] == ps[k]);
        assert(s.skip(1) =~= ps.skip(k + 1));
        lemma_campos_a_partir_de(ps, i, j, k + 1, envio);
        assert(achados(ps[k], g, t) == (
            if i < k + 1 {
                Some(ps[i].skip(2))
            } else {
                None
            },
            if j < k + 1 {
                Some(envio)
            } else {
                None
            },
        ));
    }
}

/// Quando uma só palavra do corpo começa por `g=` e uma só por `t=`, com um inteiro de 128 bits,
/// são elas que dão o gerador e o instante de envio, em qualquer posição.
pub proof fn lei_campos_do_corpo(corpo: Seq<char>, i: int, j: int, envio: int)
    requires
        ({
            let ps = palavras(corpo);
            &&& 0 <= i < ps.len()
            &&& 0 <= j < ps.len()
            &&& comeca(ps[i], "g="@)
            &&& comeca(ps[j], "t="@)
            &&& inteiro_entre(ps[j].skip(2), i128::MIN as int, i128::MAX as int) == Some(envio)
            &&& forall|n: int|
                0 <= n < ps.len() && n != i && n != j ==> !comeca(#[trigger] ps[n], "g="@)
                    && !comeca(ps[n], "t="@)
        }),
    ensures
        extraidos(corpo) == Some((palavras(corpo)[i].skip(2), envio)),
{
    let ps = palavras(corpo);
    assert forall|n: int| 0 <= n < ps.len() implies (comeca(#[trigger] ps[n], "g="@) <==> do_campo(
        ps[n],
        'g',
    )) && (comeca(ps[n], "t="@) <==> do_campo(ps[n], 't')) by {
        lemma_comeca_por_campo(ps[n]);
    }
    lemma_campos_a_partir_de(ps, i, j, 0, envio);
    assert(ps.skip(0) =~= ps);
}

proof fn lemma_comeca_por_campo(p: Seq<char>)
    ensures
        comeca(p, "g="@) <==> do_campo(p, 'g'),
        comeca(p, "t="@) <==> do_campo(p, 't'),
{
    reveal_strlit("g=");
    reveal_strlit("t=");
    if p.len() >= 2 {
        let q = p.take(2);
        assert(q[0] == p[0] && q[1] == p[1]);
        if do_campo(p, 'g') {
            assert(q =~= "g="@);
        }
        if do_campo(p, 't') {
            assert(q =~= "t="@);
        }
    }
}

proof fn lemma_achados_nas_palavras(
    ps: Seq<Seq<char>>,
    k: int,
    gerador: Option<Seq<char>>,
    envio: Option<int>,
)
    requires
        0 <= k <= ps.len(),
        gerador is Some ==> exists|i: int|
            0 <= i < k && do_campo(#[trigger] ps[i], 'g') && ps[i].skip(2) == gerador->0,
        envio is Some ==> exists|j: int|
            0 <= j < k && do_campo(#[trigger] ps[j], 't') && inteiro_entre(
                ps[j].skip(2),
                i128::MIN as int,
                i128::MAX as int,
            ) == envio,
    ensures
        procurados(ps.skip(k), gerador, envio) matches Some((g, t)) ==> (exists|i: int|
            0 <= i < ps.len() && do_campo(#[trigger] ps[i], 'g') && ps[i].skip(2) == g) && (exists|
            j: int,
        |
            0 <= j < ps.len() && do_campo(#[trigger] ps[j], 't') && inteiro_entre(
                ps[j].skip(2),
                i128::MIN as int,
                i128::MAX as int,
            ) == Some(t)),
    decreases ps.len() - k,
{
    if !(gerador is Some && envio is Some) && k < ps.len() {
        let s = ps.skip(k);
        assert(s[0] == ps[k]);
        assert(s.skip(1) =~= ps.skip(k + 1));
        let (g, t) = achados(ps[k], gerador, envio);
        if do_campo(ps[k], 'g') {
            assert(ps[k].skip(2) == g->0);
        }
        lemma_achados_nas_palavras(ps, k + 1, g, t);
    }
}

/// Só há campos se as palavras do corpo os trazem: o gerador vem de uma que começa por `g=`, e o
/// instante, de uma que começa por `t=` e segue com um inteiro de 128 bits.
pub proof fn lei_campos_vem_do_corpo(corpo: Seq<char>)
    ensures
        extraidos(corpo) matches Some((g, t)) ==> palavras(corpo).contains("g="@ + g) && exists|
            j: int,
        |
            0 <= j < palavras(corpo).len() && comeca(#[trigger] palavras(corpo)[j], "t="@)
                && inteiro_entre(
                palavras(corpo)[j].skip(2),
                i128::MIN as int,
                i128::MAX as int,
            ) == Some(t),
{
    let ps = palavras(corpo);
    assert(ps.skip(0) =~= ps);
    lemma_achados_nas_palavras(ps, 0, None, None);
    if let Some((g, t)) = extraidos(corpo) {
        let i = choose|i: int|
            0 <= i < ps.len() && do_campo(#[trigger] ps[i], 'g') && ps[i].skip(2) == g;
        reveal_strlit("g=");
        assert(ps[i] =~= "g="@ + g);
        let j = choose|j: int|
            0 <= j < ps.len() && do_campo(#[trigger] ps[j], 't') && inteiro_entre(
                ps[j].skip(2),
                i128::MIN as int,
                i128::MAX as int,
            ) == Some(t);
        lemma_comeca_por_campo(ps[j]);
    }
}

proof fn lemma_palavra_ate_o_fim(s: Seq<char>)
    requires
        forall|i: int| 0 <= i < s.len() ==> !espaco_ascii(#[trigger] s[i]),
    ensures
        ate_o_espaco(s) == s.len(),
    decreases s.len(),
{
    if s.len() > 0 {
        assert forall|i: int| 0 <= i < s.skip(1).len() implies !espaco_ascii(
            #[trigger] s.skip(1)[i],
        ) by {
            assert(s.skip(1)[i] == s[i + 1]);
        }
        lemma_palavra_ate_o_fim(s.skip(1));
    }
}

/// Um texto sem espaços é uma palavra só, e nenhuma se é vazio.
pub proof fn lei_palavra_sozinha(s: Seq<char>)
    requires
        forall|i: int| 0 <= i < s.len() ==> !espaco_ascii(#[trigger] s[i]),
    ensures
        palavras(s) == if s.len() == 0 {
            Seq::empty()
        } else {
            seq![s]
        },
{
    if s.len() > 0 {
        lemma_palavra_ate_o_fim(s);
        assert(s.take(s.len() as int) =~= s);
        assert(s.skip(s.len() as int) =~= Seq::<char>::empty());
        assert(palavras(Seq::<char>::empty()) =~= Seq::<Seq<char>>::empty());
        assert(seq![s] + Seq::<Seq<char>>::empty() =~= seq![s]);
    }
}

proof fn lemma_ate_o_espaco_antes(a: Seq<char>, c: char, b: Seq<char>)
    requires
        espaco_ascii(c),
    ensures
        ate_o_espaco(a + seq![c] + b) == ate_o_espaco(a),
        ate_o_espaco(a) <= a.len(),
    decreases a.len(),
{
    let s = a + seq![c] + b;
    if a.len() == 0 {
        assert(s[0] == c);
    } else {
        assert(s[0] == a[0]);
        assert(s.skip(1) =~= a.skip(1) + seq![c] + b);
        lemma_ate_o_espaco_antes(a.skip(1), c, b);
    }
}

/// Um espaço separa: as palavras do texto são as de antes dele, seguidas das de depois.
pub proof fn lei_palavras_separadas(a: Seq<char>, c: char, b: Seq<char>)
    requires
        espaco_ascii(c),
    ensures
        palavras(a + seq![c] + b) == palavras(a) + palavras(b),
    decreases a.len(),
{
    let s = a + seq![c] + b;
    if a.len() == 0 {
        assert(s[0] == c);
        assert(s.skip(1) =~= b);
        assert(Seq::<Seq<char>>::empty() + palavras(b) =~= palavras(b));
    } else {
        assert(s[0] == a[0]);
        if espaco_ascii(a[0]) {
            assert(s.skip(1) =~= a.skip(1) + seq![c] + b);
            lei_palavras_separadas(a.skip(1), c, b);
        } else {
            lemma_ate_o_espaco_antes(a, c, b);
            let n = ate_o_espaco(a) as int;
            assert(n >= 1);
            assert(s.take(n) =~= a.take(n));
            assert(s.skip(n) =~= a.skip(n) + seq![c] + b);
            lei_palavras_separadas(a.skip(n), c, b);
            assert(seq![a.take(n)] + (palavras(a.skip(n)) + palavras(b)) =~= (seq![a.take(n)]
                + palavras(a.skip(n))) + palavras(b));
        }
    }
}

// ---- Classes ----

/// Uma mensagem legível é do aquecimento quando foi enviada antes do fim dele no seu gerador; senão
/// conta como recebida desse gerador, sem latência só se chegou antes de ser enviada.
pub proof fn lei_classe_da_mensagem(
    ns: i64,
    corpo: Seq<char>,
    inicio: Seq<(Seq<char>, i128)>,
    gerador: Seq<char>,
    envio: int,
)
    requires
        extraidos(corpo) == Some((gerador, envio)),
        i128::MIN <= ns - envio <= i128::MAX,
    ensures
        ({
            let k = classe_do_corpo(Some(Some(ns)), corpo, inicio);
            let aquecendo = obtido(inicio, gerador) matches Some(fim) && envio < fim;
            &&& aquecendo ==> k is Aquecimento
            &&& !aquecendo ==> k is Recebida && k->gerador == gerador && (k->latencia_us is None
                <==> ns < envio)
        }),
{
    lei_campos_vem_do_corpo(corpo);
    let ps = palavras(corpo);
    let j = choose|j: int|
        0 <= j < ps.len() && comeca(#[trigger] ps[j], "t="@) && inteiro_entre(
            ps[j].skip(2),
            i128::MIN as int,
            i128::MAX as int,
        ) == Some(envio);
    assert(i128::MIN <= envio <= i128::MAX);
}

/// Sem um instante de recebimento, ou sem os campos, a mensagem é ilegível.
pub proof fn lei_mensagem_ilegivel(
    recebido: Option<Option<i64>>,
    corpo: Seq<char>,
    inicio: Seq<(Seq<char>, i128)>,
)
    requires
        recebido is None || recebido == Some(None::<i64>) || extraidos(corpo) is None,
    ensures
        classe_do_corpo(recebido, corpo, inicio) is Invalida,
{
}

proof fn lemma_so_espacos(s: Seq<char>)
    requires
        forall|i: int| 0 <= i < s.len() ==> espaco(#[trigger] s[i]),
    ensures
        sem_espacos_no_inicio(s).len() == 0,
    decreases s.len(),
{
    if s.len() > 0 {
        assert(espaco(s[0]));
        assert forall|i: int| 0 <= i < s.drop_first().len() implies espaco(
            #[trigger] s.drop_first()[i],
        ) by {
            assert(s.drop_first()[i] == s[i + 1]);
        }
        lemma_so_espacos(s.drop_first());
    }
}

proof fn lemma_inicio_aparado(e: Seq<char>, m: Seq<char>)
    requires
        forall|i: int| 0 <= i < e.len() ==> espaco(#[trigger] e[i]),
        m.len() > 0,
        !espaco(m[0]),
    ensures
        sem_espacos_no_inicio(e + m) == m,
    decreases e.len(),
{
    if e.len() == 0 {
        assert(e + m =~= m);
    } else {
        assert((e + m)[0] == e[0]);
        assert((e + m).drop_first() =~= e.drop_first() + m);
        assert forall|i: int| 0 <= i < e.drop_first().len() implies espaco(
            #[trigger] e.drop_first()[i],
        ) by {
            assert(e.drop_first()[i] == e[i + 1]);
        }
        lemma_inicio_aparado(e.drop_first(), m);
    }
}

proof fn lemma_fim_aparado(m: Seq<char>, e: Seq<char>)
    requires
        forall|i: int| 0 <= i < e.len() ==> espaco(#[trigger] e[i]),
        m.len() > 0,
        !espaco(m.last()),
    ensures
        sem_espacos_no_fim(m + e) == m,
    decreases e.len(),
{
    if e.len() == 0 {
        assert(m + e =~= m);
    } else {
        assert((m + e).last() == e.last());
        assert(espaco(e[e.len() - 1]));
        assert((m + e).drop_last() =~= m + e.drop_last());
        assert forall|i: int| 0 <= i < e.drop_last().len() implies espaco(
            #[trigger] e.drop_last()[i],
        ) by {
            assert(e.drop_last()[i] == e[i]);
        }
        lemma_fim_aparado(m, e.drop_last());
    }
}

/// Aparar tira os espaços das pontas, e só eles.
pub proof fn lei_aparado(antes: Seq<char>, meio: Seq<char>, depois: Seq<char>)
    requires
        forall|i: int| 0 <= i < antes.len() ==> espaco(#[trigger] antes[i]),
        forall|i: int| 0 <= i < depois.len() ==> espaco(#[trigger] depois[i]),
        meio.len() > 0 ==> !espaco(meio[0]) && !espaco(meio.last()),
    ensures
        aparado(antes + meio + depois) == meio,
{
    if meio.len() == 0 {
        let s = antes + meio + depois;
        assert forall|i: int| 0 <= i < s.len() implies espaco(#[trigger] s[i]) by {
            if i < antes.len() {
                assert(s[i] == antes[i]);
            } else {
                assert(s[i] == depois[i - antes.len()]);
            }
        }
        lemma_so_espacos(s);
        assert(sem_espacos_no_inicio(s) =~= meio);
    } else {
        assert(antes + meio + depois =~= antes + (meio + depois));
        lemma_inicio_aparado(antes, meio + depois);
        lemma_fim_aparado(meio, depois);
    }
}

/// `ate` é a posição do primeiro: antes dela o caractere não ocorre, e nela sim, se ocorre.
pub proof fn lei_primeira_ocorrencia(s: Seq<char>, c: char)
    ensures
        ate(s, c) <= s.len(),
        ate(s, c) < s.len() ==> s[ate(s, c) as int] == c,
        forall|i: int| 0 <= i < ate(s, c) ==> #[trigger] s[i] != c,
    decreases s.len(),
{
    if s.len() > 0 && s[0] != c {
        let t = s.skip(1);
        lei_primeira_ocorrencia(t, c);
        assert forall|i: int| 0 <= i < ate(s, c) implies #[trigger] s[i] != c by {
            if i > 0 {
                assert(t[i - 1] == s[i]);
            }
        }
        if ate(s, c) < s.len() {
            assert(t[ate(t, c) as int] == s[ate(t, c) as int + 1]);
        }
    }
}

/// Uma linha só de espaços é vazia.
pub proof fn lei_linha_vazia(linha: Seq<char>, inicio: Seq<(Seq<char>, i128)>)
    requires
        forall|i: int| 0 <= i < linha.len() ==> espaco(#[trigger] linha[i]),
    ensures
        classe_da_linha(linha, inicio) is Vazia,
{
    lei_aparado(linha, Seq::empty(), Seq::empty());
    assert(linha + Seq::<char>::empty() + Seq::<char>::empty() =~= linha);
}

/// Uma linha com uma palavra só, ou com um carimbo que não é um instante, é ilegível.
pub proof fn lei_linha_sem_corpo(linha: Seq<char>, inicio: Seq<(Seq<char>, i128)>)
    requires
        linha.len() > 0,
        forall|i: int| 0 <= i < linha.len() ==> !espaco(#[trigger] linha[i]),
    ensures
        classe_da_linha(linha, inicio) is Invalida,
{
    assert(!espaco(linha[0]));
    assert(!espaco(linha[linha.len() - 1]));
    assert(aparado(linha) == linha);
    lei_primeira_ocorrencia(linha, ' ');
    if ate(linha, ' ') < linha.len() {
        assert(!espaco(linha[ate(linha, ' ') as int]));
    }
}

/// A classe de uma linha é a do seu corpo, com o carimbo que vem antes do primeiro espaço; os espaços
/// em volta não contam.
pub proof fn lei_linha_com_corpo(
    antes: Seq<char>,
    carimbo: Seq<char>,
    corpo: Seq<char>,
    depois: Seq<char>,
    inicio: Seq<(Seq<char>, i128)>,
)
    requires
        forall|i: int| 0 <= i < antes.len() ==> espaco(#[trigger] antes[i]),
        forall|i: int| 0 <= i < depois.len() ==> espaco(#[trigger] depois[i]),
        carimbo.len() > 0,
        forall|i: int| 0 <= i < carimbo.len() ==> !espaco(#[trigger] carimbo[i]),
        corpo.len() > 0,
        !espaco(corpo.last()),
    ensures
        classe_da_linha(antes + (carimbo + seq![' '] + corpo) + depois, inicio) == classe_do_corpo(
            carimbo_lido(carimbo),
            corpo,
            inicio,
        ),
{
    let l = carimbo + seq![' '] + corpo;
    assert(l[0] == carimbo[0]);
    assert(l.last() == corpo.last());
    lei_aparado(antes, l, depois);
    lei_primeira_ocorrencia(l, ' ');
    let k = ate(l, ' ') as int;
    let n = carimbo.len() as int;
    assert(l[n] == ' ');
    if k < n {
        assert(l[k] == carimbo[k]);
        assert(!espaco(carimbo[k]));
    }
    assert(k == n);
    assert(l.take(k) =~= carimbo);
    assert(l.skip(k + 1) =~= corpo);
}

/// Cada linha lida tem uma classe, na mesma posição; a que não pôde ser lida é ilegível.
pub proof fn lei_classe_de_cada_linha(
    linhas: Seq<Option<String>>,
    inicio: Seq<(Seq<char>, i128)>,
    i: int,
)
    requires
        0 <= i < linhas.len(),
    ensures
        classes(linhas, inicio).len() == linhas.len(),
        match linhas[i] {
            Some(linha) => classes(linhas, inicio)[i] == classe_da_linha(linha@, inicio),
            None => classes(linhas, inicio)[i] is Invalida,
        },
{
}

// ---- Contadores ----

/// Cada contador é o número de linhas da sua classe.
pub proof fn lei_contadores(ks: Seq<ClasseVista>, gerador: Seq<char>)
    ensures
        recebidas(ks) == ks.filter(|k: ClasseVista| k is Recebida).len(),
        do_aquecimento(ks) == ks.filter(|k: ClasseVista| k is Aquecimento).len(),
        invalidas(ks) == ks.filter(|k: ClasseVista| k is Invalida).len(),
        vazias(ks) == ks.filter(|k: ClasseVista| k is Vazia).len(),
        anomalias(ks) == ks.filter(
            |k: ClasseVista| k is Recebida && k->latencia_us is None,
        ).len(),
        recebidas_de(ks, gerador) == ks.filter(
            |k: ClasseVista| k is Recebida && k->gerador == gerador,
        ).len(),
    decreases ks.len(),
{
    reveal(Seq::filter);
    if ks.len() > 0 {
        lei_contadores(ks.drop_last(), gerador);
    }
}

/// Cada latência fica registrada tantas vezes quantas são as mensagens que a tiveram.
pub proof fn lei_latencias_registradas(ks: Seq<ClasseVista>, us: u64)
    ensures
        latencias(Multiset::empty(), ks).count(us) == ks.filter(
            |k: ClasseVista| k is Recebida && k->latencia_us == Some(us),
        ).len(),
    decreases ks.len(),
{
    reveal(Seq::filter);
    if ks.len() > 0 {
        lei_latencias_registradas(ks.drop_last(), us);
    }
}

// ---- Conferência ----

/// Se a amostra é da fila principal ou da de uma ação.
pub open spec fn da_fila(ms: Seq<(Seq<char>, EscalarVisto)>) -> bool {
    &&& obtido(ms, "origin"@) == Some(EscalarVisto::Texto("core.queue"@))
    &&& obtido(ms, "name"@) matches Some(EscalarVisto::Texto(nome)) && (comeca(nome, "action"@)
        || contem(nome, "main"@))
}

proof fn lemma_nomes_das_origens()
    ensures
        "core.queue"@ != "imudp"@,
        "core.queue"@ != "imtcp"@,
        "core.queue"@ != "omfwd"@,
        "omfwd"@ != "imudp"@,
        "omfwd"@ != "imtcp"@,
        "core.queue"@.len() > 0,
        "imudp"@.len() > 0,
        "imtcp"@.len() > 0,
        "omfwd"@.len() > 0,
{
    reveal_strlit("core.queue");
    reveal_strlit("imudp");
    reveal_strlit("imtcp");
    reveal_strlit("omfwd");
    assert("core.queue"@[0] == 'c' && "imudp"@[0] == 'i' && "imtcp"@[0] == 'i' && "omfwd"@[0]
        == 'o');
}

/// Depois da amostra de uma fila, o que está nela é o tamanho que a amostra diz, e o que ela
/// descartou é a soma, em 64 bits, dos seus contadores, sejam quais forem as amostras anteriores; as
/// demais amostras não mexem em nenhum dos dois.
pub proof fn lei_amostra_da_fila(a: AmostrasVistas, ms: Seq<(Seq<char>, EscalarVisto)>)
    ensures
        ({
            let b = com_amostra(a, ms);
            &&& da_fila(ms) ==> b.na_fila == numero_do_membro(ms, "size"@) && b.descartadas_fila
                == (numero_do_membro(ms, "discarded.full"@) + numero_do_membro(
                ms,
                "discarded.nf"@,
            ) + numero_do_membro(ms, "full"@)) % 0x1_0000_0000_0000_0000 && b.recebidas
                == a.recebidas && b.encaminhadas == a.encaminhadas && b.disponivel == a.disponivel
            &&& !da_fila(ms) ==> b.na_fila == a.na_fila && b.descartadas_fila == a.descartadas_fila
        }),
{
    lemma_nomes_das_origens();
    reveal_strlit("action");
    reveal_strlit("main");
    let nome = texto_do_membro(ms, "name"@);
    if nome.len() == 0 {
        assert(!comeca(nome, "action"@));
        assert(!contem(nome, "main"@));
    }
}

/// Uma amostra de entrada, com o contador, só muda o dessa entrada; uma de encaminhamento, só o do
/// alvo; ambas tornam a conferência disponível. As demais não mexem nesses contadores.
pub proof fn lei_amostra_de_contador(
    a: AmostrasVistas,
    ms: Seq<(Seq<char>, EscalarVisto)>,
    chave: Seq<char>,
)
    ensures
        ({
            let b = com_amostra(a, ms);
            let origem = texto_do_membro(ms, "origin"@);
            let nome = texto_do_membro(ms, "name"@);
            let entrada = (origem == "imudp"@ || origem == "imtcp"@) && natural_do_membro(
                ms,
                "submitted"@,
            ) is Some;
            &&& obtido(b.recebidas, chave) == if entrada && chave == origem + "/"@ + nome {
                natural_do_membro(ms, "submitted"@)
            } else {
                obtido(a.recebidas, chave)
            }
            &&& obtido(b.encaminhadas, chave) == if origem == "omfwd"@ && chave == nome {
                Some(numero_do_membro(ms, "messages.sent"@))
            } else {
                obtido(a.encaminhadas, chave)
            }
            &&& b.disponivel <==> a.disponivel || entrada || origem == "omfwd"@
        }),
{
    lemma_nomes_das_origens();
    let origem = texto_do_membro(ms, "origin"@);
    let nome = texto_do_membro(ms, "name"@);
    if let Some(n) = natural_do_membro(ms, "submitted"@) {
        lei_obtido_inserido(a.recebidas, origem + "/"@ + nome, n, chave);
    }
    lei_obtido_inserido(
        a.encaminhadas,
        nome,
        numero_do_membro(ms, "messages.sent"@),
        chave,
    );
}

/// Cada linha do relay acrescenta a amostra que está a partir da sua primeira chave aberta; a que
/// não tem uma, ou não segue com JSON, não muda nada.
pub proof fn lei_linha_do_relay(linhas: Seq<String>, linha: String)
    ensures
        ({
            let antes = amostras_das_linhas(linhas);
            let depois = amostras_das_linhas(linhas.push(linha));
            &&& !linha@.contains('{') ==> depois == antes
            &&& forall|prefixo: Seq<char>, objeto: Seq<char>|
                linha@ == #[trigger] (prefixo + objeto) && !prefixo.contains('{') && objeto.len()
                    > 0 && objeto[0] == '{' ==> depois == match objeto_lido(objeto) {
                    Some(ms) => com_amostra(antes, ms),
                    None => antes,
                }
        }),
{
    let s = linhas.push(linha);
    assert(s.drop_last() =~= linhas);
    lei_primeira_ocorrencia(linha@, '{');
    let k = ate(linha@, '{') as int;
    if k < linha@.len() {
        assert(linha@[k] == '{');
    }
    assert forall|prefixo: Seq<char>, objeto: Seq<char>|
        linha@ == #[trigger] (prefixo + objeto) && !prefixo.contains('{') && objeto.len() > 0
            && objeto[0] == '{' implies amostras_das_linhas(s) == match objeto_lido(objeto) {
        Some(ms) => com_amostra(amostras_das_linhas(linhas), ms),
        None => amostras_das_linhas(linhas),
    } by {
        let n = prefixo.len() as int;
        assert(linha@[n] == objeto[0]);
        if k < n {
            assert(linha@[k] == prefixo[k]);
        }
        assert(k == n);
        assert(linha@.skip(k) =~= objeto);
    }
}

} // verus!
