//! O que não muda o relatório: a ordem dos geradores e dos receptores, e repetir as amostras do
//! relay.

use vstd::prelude::*;

use crate::config::Config;
use crate::json::{
    natural_do_membro, numero_do_membro, objeto_lido, texto_do_membro, EscalarVisto,
};
use crate::metricas::{
    amostras_das_linhas, amostras_desde, com_amostra, sem_amostras, Agregado, AmostrasVistas,
    EstatReceptor,
};
use crate::proporcao::{lemma_magnitude_monotona, lemma_natural_finito, lemma_zero};
use crate::reais::{um, Real};
use crate::relatorio::{
    fatia_ideal, maior_desvio, maior_janela, porcentagem, resumo_de, soma_enviadas, EnvioGerador,
    Veredito,
};
use crate::tabela::{
    inserido, lei_inserido_ordenada, lei_obtido_inserido, lei_tabela_determinada, obtido, ordenada,
};
use crate::texto::ate;

verus! {

// ---- O maior desvio ----

/// O desvio da fatia de um receptor em relação à ideal, sem sinal.
pub open spec fn desvio(r: EstatReceptor, recebidas: u64, ideal: Real) -> Real {
    porcentagem(r.recebidas as int, recebidas).diferenca(ideal).absoluto()
}

/// O maior de uma lista de números, a partir de zero.
spec fn maior_de(xs: Seq<Real>) -> Real
    decreases xs.len(),
{
    if xs.len() == 0 {
        Real::do_inteiro(0)
    } else {
        maior_de(xs.drop_last()).maior_entre(xs.last())
    }
}

proof fn lemma_maior_de(xs: Seq<Real>)
    ensures
        ({
            let m = maior_de(xs);
            &&& !m.nan()
            &&& !m.negativo()
            &&& forall|i: int|
                0 <= i < xs.len() && !xs[i].nan() ==> (#[trigger] xs[i]).menor_ou_igual(m)
            &&& m == Real::do_inteiro(0) || xs.contains(m)
        }),
    decreases xs.len(),
{
    lemma_zero();
    if xs.len() > 0 {
        let antes = xs.drop_last();
        let m = maior_de(xs);
        lemma_maior_de(antes);
        assert forall|i: int| 0 <= i < xs.len() && !xs[i].nan() implies (
        #[trigger] xs[i]).menor_ou_igual(m) by {
            if i < antes.len() {
                assert(antes[i] == xs[i]);
            }
        }
        if m == xs.last() {
            assert(xs[xs.len() - 1] == m);
        } else if antes.contains(m) {
            let i = choose|i: int| 0 <= i < antes.len() && antes[i] == m;
            assert(xs[i] == m);
        }
    }
}

/// Listas com os mesmos números têm o mesmo maior.
proof fn lemma_mesmo_maior(xs: Seq<Real>, ys: Seq<Real>)
    requires
        forall|x: Real| xs.contains(x) <==> ys.contains(x),
    ensures
        maior_de(xs) == maior_de(ys),
{
    lemma_zero();
    lemma_maior_de(xs);
    lemma_maior_de(ys);
    let m = maior_de(xs);
    let n = maior_de(ys);
    if xs.contains(m) {
        assert(ys.contains(m));
        let i = choose|i: int| 0 <= i < ys.len() && ys[i] == m;
        assert(ys[i].menor_ou_igual(n));
    }
    if ys.contains(n) {
        assert(xs.contains(n));
        let i = choose|i: int| 0 <= i < xs.len() && xs[i] == n;
        assert(xs[i].menor_ou_igual(m));
    }
}

spec fn desvios(rs: Seq<EstatReceptor>, recebidas: u64, ideal: Real) -> Seq<Real> {
    Seq::new(rs.len(), |i: int| desvio(rs[i], recebidas, ideal))
}

spec fn janelas(es: Seq<EnvioGerador>) -> Seq<Real> {
    Seq::new(es.len(), |i: int| es[i].janela_s)
}

proof fn lemma_maior_desvio(rs: Seq<EstatReceptor>, recebidas: u64, ideal: Real)
    ensures
        maior_desvio(rs, recebidas, ideal) == maior_de(desvios(rs, recebidas, ideal)),
    decreases rs.len(),
{
    if rs.len() > 0 {
        lemma_maior_desvio(rs.drop_last(), recebidas, ideal);
        assert(desvios(rs, recebidas, ideal).drop_last() =~= desvios(
            rs.drop_last(),
            recebidas,
            ideal,
        ));
    }
}

proof fn lemma_maior_janela(es: Seq<EnvioGerador>)
    ensures
        maior_janela(es) == maior_de(janelas(es)),
    decreases es.len(),
{
    if es.len() > 0 {
        lemma_maior_janela(es.drop_last());
        assert(janelas(es).drop_last() =~= janelas(es.drop_last()));
    }
}

/// O desvio máximo é o maior dos desvios dos receptores, e o veredito vale para todos eles: é
/// balanceado se e somente se nenhum passa de 1%, e desbalanceado se e somente se algum passa de
/// 5%.
pub proof fn lei_desvio_maximo(rs: Seq<EstatReceptor>, recebidas: u64, ideal: Real)
    ensures
        ({
            let m = maior_desvio(rs, recebidas, ideal);
            &&& m == Real::do_inteiro(0) || exists|i: int|
                0 <= i < rs.len() && m == desvio(#[trigger] rs[i], recebidas, ideal)
            &&& forall|i: int|
                0 <= i < rs.len() && !desvio(rs[i], recebidas, ideal).nan() ==> desvio(
                    #[trigger] rs[i],
                    recebidas,
                    ideal,
                ).menor_ou_igual(m)
            &&& Veredito::do_desvio(m) is Balanceado <==> forall|i: int|
                0 <= i < rs.len() ==> !Real::do_inteiro(1).menor(
                    desvio(#[trigger] rs[i], recebidas, ideal),
                )
            &&& Veredito::do_desvio(m) is Desbalanceado <==> exists|i: int|
                0 <= i < rs.len() && Real::do_inteiro(5).menor(
                    desvio(#[trigger] rs[i], recebidas, ideal),
                )
        }),
{
    let xs = desvios(rs, recebidas, ideal);
    let m = maior_desvio(rs, recebidas, ideal);
    lemma_maior_desvio(rs, recebidas, ideal);
    lemma_maior_de(xs);
    lemma_zero();
    lemma_natural_finito(1);
    lemma_natural_finito(5);
    lemma_magnitude_monotona(1 * um(), 5 * um(), 1);
    assert forall|i: int| 0 <= i < rs.len() && !desvio(rs[i], recebidas, ideal).nan() implies desvio(
        #[trigger] rs[i],
        recebidas,
        ideal,
    ).menor_ou_igual(m) by {
        assert(xs[i].menor_ou_igual(m));
    }
    if xs.contains(m) {
        let i = choose|i: int| 0 <= i < xs.len() && xs[i] == m;
        assert(m == desvio(rs[i], recebidas, ideal));
    }
}

// ---- A ordem dos geradores e dos receptores ----

proof fn lemma_soma_sem_um(es: Seq<EnvioGerador>, k: int)
    requires
        0 <= k < es.len(),
    ensures
        soma_enviadas(es) == soma_enviadas(es.remove(k)) + es[k].enviadas_uteis,
    decreases es.len(),
{
    if k == es.len() - 1 {
        assert(es.remove(k) =~= es.drop_last());
    } else {
        lemma_soma_sem_um(es.drop_last(), k);
        assert(es.remove(k).drop_last() =~= es.drop_last().remove(k));
    }
}

proof fn lemma_soma_permutada(es: Seq<EnvioGerador>, fs: Seq<EnvioGerador>)
    requires
        es.to_multiset() == fs.to_multiset(),
    ensures
        soma_enviadas(es) == soma_enviadas(fs),
    decreases es.len(),
{
    es.to_multiset_ensures();
    fs.to_multiset_ensures();
    assert(es.len() == fs.len());
    if es.len() > 0 {
        let ultimo = es.last();
        assert(es.contains(es[es.len() - 1]));
        assert(es.to_multiset().count(ultimo) > 0);
        assert(fs.contains(ultimo));
        let k = choose|k: int| 0 <= k < fs.len() && fs[k] == ultimo;
        lemma_soma_sem_um(fs, k);
        assert(es.remove(es.len() - 1) =~= es.drop_last());
        lemma_soma_permutada(es.drop_last(), fs.remove(k));
    }
}

proof fn lemma_mesmos_itens<T>(a: Seq<T>, b: Seq<T>)
    requires
        a.to_multiset() == b.to_multiset(),
    ensures
        forall|x: T| a.contains(x) == b.contains(x),
{
    a.to_multiset_ensures();
    b.to_multiset_ensures();
    assert forall|x: T| a.contains(x) == b.contains(x) by {
        assert(a.contains(x) <==> a.to_multiset().count(x) > 0);
        assert(b.contains(x) <==> b.to_multiset().count(x) > 0);
    }
}

/// O resumo não depende da ordem dos geradores nem da dos receptores.
pub proof fn lei_resumo_sem_ordem(
    cfg: Config,
    es: Seq<EnvioGerador>,
    ag: Agregado,
    outros_es: Seq<EnvioGerador>,
    outro_ag: Agregado,
    tamanho_medio: usize,
)
    requires
        es.to_multiset() == outros_es.to_multiset(),
        ag.total_recebidas == outro_ag.total_recebidas,
        ag.receptores@.to_multiset() == outro_ag.receptores@.to_multiset(),
    ensures
        resumo_de(cfg, es, ag, tamanho_medio) == resumo_de(cfg, outros_es, outro_ag, tamanho_medio),
{
    let n = ag.total_recebidas;
    let ideal = fatia_ideal(cfg.receptores.quantidade);
    lemma_soma_permutada(es, outros_es);
    lemma_mesmos_itens(es, outros_es);
    lemma_mesmos_itens(ag.receptores@, outro_ag.receptores@);
    lemma_maior_janela(es);
    lemma_maior_janela(outros_es);
    lemma_janelas_iguais(es, outros_es);
    lemma_janelas_iguais(outros_es, es);
    lemma_mesmo_maior(janelas(es), janelas(outros_es));
    lemma_maior_desvio(ag.receptores@, n, ideal);
    lemma_maior_desvio(outro_ag.receptores@, n, ideal);
    lemma_desvios_iguais(ag.receptores@, outro_ag.receptores@, n, ideal);
    lemma_desvios_iguais(outro_ag.receptores@, ag.receptores@, n, ideal);
    lemma_mesmo_maior(
        desvios(ag.receptores@, n, ideal),
        desvios(outro_ag.receptores@, n, ideal),
    );
}

proof fn lemma_janelas_iguais(es: Seq<EnvioGerador>, fs: Seq<EnvioGerador>)
    requires
        forall|e: EnvioGerador| es.contains(e) ==> fs.contains(e),
    ensures
        forall|x: Real| janelas(es).contains(x) ==> janelas(fs).contains(x),
{
    assert forall|x: Real| janelas(es).contains(x) implies janelas(fs).contains(x) by {
        let i = choose|i: int| 0 <= i < janelas(es).len() && janelas(es)[i] == x;
        assert(es.contains(es[i]));
        let j = choose|j: int| 0 <= j < fs.len() && fs[j] == es[i];
        assert(janelas(fs)[j] == x);
    }
}

proof fn lemma_desvios_iguais(
    rs: Seq<EstatReceptor>,
    ss: Seq<EstatReceptor>,
    recebidas: u64,
    ideal: Real,
)
    requires
        forall|r: EstatReceptor| rs.contains(r) ==> ss.contains(r),
    ensures
        forall|x: Real|
            desvios(rs, recebidas, ideal).contains(x) ==> desvios(ss, recebidas, ideal).contains(x),
{
    let a = desvios(rs, recebidas, ideal);
    let b = desvios(ss, recebidas, ideal);
    assert forall|x: Real| a.contains(x) implies b.contains(x) by {
        let i = choose|i: int| 0 <= i < a.len() && a[i] == x;
        assert(rs.contains(rs[i]));
        let j = choose|j: int| 0 <= j < ss.len() && ss[j] == rs[i];
        assert(b[j] == x);
    }
}

// ---- As amostras repetidas ----

proof fn lemma_amostras_desde(x: Seq<String>, y: Seq<String>)
    ensures
        amostras_das_linhas(x + y) == amostras_desde(amostras_das_linhas(x), y),
    decreases y.len(),
{
    if y.len() == 0 {
        assert(x + y =~= x);
    } else {
        lemma_amostras_desde(x, y.drop_last());
        assert((x + y).drop_last() =~= x + y.drop_last());
        assert((x + y).last() == y.last());
    }
}

/// Se dois valores, a partir de `a` e de `b`, ficaram iguais ou ficaram como estavam.
spec fn acompanham<T>(a: T, b: T, x: T, y: T) -> bool {
    x == y || (x == a && y == b)
}

/// Se tudo o que as amostras dizem ficou igual ou ficou como estava.
spec fn seguem_juntas(
    a: AmostrasVistas,
    b: AmostrasVistas,
    x: AmostrasVistas,
    y: AmostrasVistas,
) -> bool {
    &&& forall|k: Seq<char>|
        #![trigger obtido(x.recebidas, k)]
        #![trigger obtido(y.recebidas, k)]
        acompanham(
            obtido(a.recebidas, k),
            obtido(b.recebidas, k),
            obtido(x.recebidas, k),
            obtido(y.recebidas, k),
        )
    &&& forall|k: Seq<char>|
        #![trigger obtido(x.encaminhadas, k)]
        #![trigger obtido(y.encaminhadas, k)]
        acompanham(
            obtido(a.encaminhadas, k),
            obtido(b.encaminhadas, k),
            obtido(x.encaminhadas, k),
            obtido(y.encaminhadas, k),
        )
    &&& acompanham(a.na_fila, b.na_fila, x.na_fila, y.na_fila)
    &&& acompanham(a.descartadas_fila, b.descartadas_fila, x.descartadas_fila, y.descartadas_fila)
    &&& acompanham(a.disponivel, b.disponivel, x.disponivel, y.disponivel)
}

proof fn lemma_insercoes_juntas(
    a: Seq<(Seq<char>, u64)>,
    b: Seq<(Seq<char>, u64)>,
    x: Seq<(Seq<char>, u64)>,
    y: Seq<(Seq<char>, u64)>,
    chave: Seq<char>,
    v: u64,
)
    requires
        forall|k: Seq<char>|
            #![trigger obtido(x, k)]
            acompanham(obtido(a, k), obtido(b, k), obtido(x, k), obtido(y, k)),
    ensures
        forall|k: Seq<char>|
            #![trigger obtido(inserido(x, chave, v), k)]
            #![trigger obtido(inserido(y, chave, v), k)]
            acompanham(
                obtido(a, k),
                obtido(b, k),
                obtido(inserido(x, chave, v), k),
                obtido(inserido(y, chave, v), k),
            ),
{
    assert forall|k: Seq<char>|
        #![trigger obtido(inserido(x, chave, v), k)]
        #![trigger obtido(inserido(y, chave, v), k)]
        acompanham(
            obtido(a, k),
            obtido(b, k),
            obtido(inserido(x, chave, v), k),
            obtido(inserido(y, chave, v), k),
        ) by {
        lei_obtido_inserido(x, chave, v, k);
        lei_obtido_inserido(y, chave, v, k);
        assert(acompanham(obtido(a, k), obtido(b, k), obtido(x, k), obtido(y, k)));
    }
}

proof fn lemma_amostra_junta(
    a: AmostrasVistas,
    b: AmostrasVistas,
    x: AmostrasVistas,
    y: AmostrasVistas,
    ms: Seq<(Seq<char>, EscalarVisto)>,
)
    requires
        seguem_juntas(a, b, x, y),
    ensures
        seguem_juntas(a, b, com_amostra(x, ms), com_amostra(y, ms)),
{
    let origem = texto_do_membro(ms, "origin"@);
    let nome = texto_do_membro(ms, "name"@);
    if let Some(n) = natural_do_membro(ms, "submitted"@) {
        lemma_insercoes_juntas(
            a.recebidas,
            b.recebidas,
            x.recebidas,
            y.recebidas,
            origem + "/"@ + nome,
            n,
        );
    }
    lemma_insercoes_juntas(
        a.encaminhadas,
        b.encaminhadas,
        x.encaminhadas,
        y.encaminhadas,
        nome,
        numero_do_membro(ms, "messages.sent"@),
    );
}

proof fn lemma_linhas_juntas(a: AmostrasVistas, b: AmostrasVistas, linhas: Seq<String>)
    ensures
        seguem_juntas(a, b, amostras_desde(a, linhas), amostras_desde(b, linhas)),
    decreases linhas.len(),
{
    if linhas.len() > 0 {
        lemma_linhas_juntas(a, b, linhas.drop_last());
        let linha = linhas.last()@;
        let k = ate(linha, '{') as int;
        if k < linha.len() && objeto_lido(linha.skip(k)) is Some {
            lemma_amostra_junta(
                a,
                b,
                amostras_desde(a, linhas.drop_last()),
                amostras_desde(b, linhas.drop_last()),
                objeto_lido(linha.skip(k))->0,
            );
        }
    }
}

proof fn lemma_amostras_ordenadas(a: AmostrasVistas, linhas: Seq<String>)
    requires
        ordenada(a.recebidas),
        ordenada(a.encaminhadas),
    ensures
        ordenada(amostras_desde(a, linhas).recebidas),
        ordenada(amostras_desde(a, linhas).encaminhadas),
    decreases linhas.len(),
{
    if linhas.len() > 0 {
        lemma_amostras_ordenadas(a, linhas.drop_last());
        let antes = amostras_desde(a, linhas.drop_last());
        let linha = linhas.last()@;
        let k = ate(linha, '{') as int;
        if k < linha.len() && objeto_lido(linha.skip(k)) is Some {
            let ms = objeto_lido(linha.skip(k))->0;
            let origem = texto_do_membro(ms, "origin"@);
            let nome = texto_do_membro(ms, "name"@);
            if let Some(n) = natural_do_membro(ms, "submitted"@) {
                lei_inserido_ordenada(antes.recebidas, origem + "/"@ + nome, n);
            }
            lei_inserido_ordenada(
                antes.encaminhadas,
                nome,
                numero_do_membro(ms, "messages.sent"@),
            );
        }
    }
}

/// Os contadores do relay são cumulativos: o log seguido dele mesmo diz o que o log diz.
pub proof fn lei_amostras_repetidas(linhas: Seq<String>)
    ensures
        amostras_das_linhas(linhas + linhas) == amostras_das_linhas(linhas),
{
    let vazias = sem_amostras();
    let a = amostras_das_linhas(linhas);
    let dobro = amostras_desde(a, linhas);
    lemma_amostras_desde(linhas, linhas);
    lemma_linhas_juntas(a, vazias, linhas);
    lemma_amostras_ordenadas(vazias, linhas);
    lemma_amostras_ordenadas(a, linhas);
    assert forall|k: Seq<char>| #[trigger] obtido(dobro.recebidas, k) == obtido(
        a.recebidas,
        k,
    ) by {}
    assert forall|k: Seq<char>| #[trigger] obtido(dobro.encaminhadas, k) == obtido(
        a.encaminhadas,
        k,
    ) by {}
    lei_tabela_determinada(dobro.recebidas, a.recebidas);
    lei_tabela_determinada(dobro.encaminhadas, a.encaminhadas);
}

} // verus!
