//! O que a leitura dos relatórios dos geradores garante.

use vstd::arithmetic::power2::pow2;
use vstd::prelude::*;

use crate::arredonda::lemma_magnitude_nula;
use crate::balanco::lemma_unidade;
use crate::config::{Config, GeradorPlano};
use crate::json::{
    inteiro_do_membro, natural_do_membro, numero_do_membro, objeto_lido, real_do_membro, texto_do_membro,
    EscalarVisto,
};
use crate::orquestrador::{
    envio_contado, faltantes, inicios, presentes, relatados, soma_dos_tamanhos, tamanho_medio,
};
use crate::precisao::{lemma_natural_exato, perto};
use crate::proporcao::lemma_zero;
use crate::reais::{inteiro, um, Real};
use crate::relatorio::EnvioGerador;
use crate::ritmo::lemma_fracao_de_segundo;
use crate::tabela::{lei_obtido_inserido, obtido};

verus! {

// ---- Membros ----

/// Se `chave` não está entre as `k` primeiras.
pub open spec fn ausente_ate<T>(s: Seq<(Seq<char>, T)>, chave: Seq<char>, k: int) -> bool {
    forall|i: int| 0 <= i < k ==> (#[trigger] s[i]).0 != chave
}

/// O valor de uma chave é o do primeiro item que a tem; nada se nenhum tem.
pub proof fn lei_obtido<T>(s: Seq<(Seq<char>, T)>, chave: Seq<char>, k: int)
    requires
        0 <= k <= s.len(),
        ausente_ate(s, chave, k),
    ensures
        k < s.len() && s[k].0 == chave ==> obtido(s, chave) == Some(s[k].1),
        k == s.len() ==> obtido(s, chave) is None,
    decreases k,
{
    if k > 0 {
        assert(s[0].0 != chave);
        let r = s.skip(1);
        assert forall|i: int| 0 <= i < k - 1 implies (#[trigger] r[i]).0 != chave by {
            assert(r[i] == s[i + 1]);
        }
        lei_obtido(r, chave, k - 1);
    }
}

/// O que se lê de um membro que é texto.
pub proof fn lei_membro_de_texto(ms: Seq<(Seq<char>, EscalarVisto)>, chave: Seq<char>, s: Seq<char>)
    requires
        obtido(ms, chave) == Some(EscalarVisto::Texto(s)),
    ensures
        texto_do_membro(ms, chave) == s,
        natural_do_membro(ms, chave) is None,
        numero_do_membro(ms, chave) == 0,
        inteiro_do_membro(ms, chave) == 0,
        real_do_membro(ms, chave) == Real::do_inteiro(0),
{
}

/// O que se lê de um membro que é número: cada leitura dá a sua forma dele, ou zero se ele não a tem.
pub proof fn lei_membro_de_numero(
    ms: Seq<(Seq<char>, EscalarVisto)>,
    chave: Seq<char>,
    natural: Option<u64>,
    inteiro: Option<i64>,
    flutuante: Option<Real>,
)
    requires
        obtido(ms, chave) == Some(EscalarVisto::Numero { natural, inteiro, flutuante }),
    ensures
        texto_do_membro(ms, chave).len() == 0,
        natural_do_membro(ms, chave) == natural,
        natural matches Some(n) ==> numero_do_membro(ms, chave) == n,
        natural is None ==> numero_do_membro(ms, chave) == 0,
        inteiro matches Some(n) ==> inteiro_do_membro(ms, chave) == n,
        inteiro is None ==> inteiro_do_membro(ms, chave) == 0,
        flutuante matches Some(x) ==> real_do_membro(ms, chave) == x,
        flutuante is None ==> real_do_membro(ms, chave) == Real::do_inteiro(0),
{
}

/// O que se lê de um membro que falta, ou que não é texto nem número.
pub proof fn lei_membro_sem_valor(ms: Seq<(Seq<char>, EscalarVisto)>, chave: Seq<char>)
    requires
        obtido(ms, chave) is None || obtido(ms, chave) == Some(EscalarVisto::Outro),
    ensures
        texto_do_membro(ms, chave).len() == 0,
        natural_do_membro(ms, chave) is None,
        numero_do_membro(ms, chave) == 0,
        inteiro_do_membro(ms, chave) == 0,
        real_do_membro(ms, chave) == Real::do_inteiro(0),
{
}

// ---- Envios ----

/// O envio traz os números que o gerador relatou, cada um do seu membro.
pub proof fn lei_envio(
    e: EnvioGerador,
    nome: Seq<char>,
    ms: Seq<(Seq<char>, EscalarVisto)>,
)
    requires
        envio_contado(e, nome, ms),
    ensures
        e.nome@ == nome,
        obtido(ms, "enviadas_uteis"@) matches Some(
            EscalarVisto::Numero { natural: Some(n), inteiro, flutuante },
        ) ==> e.enviadas_uteis == n,
        obtido(ms, "erros_envio"@) matches Some(
            EscalarVisto::Numero { natural: Some(n), inteiro, flutuante },
        ) ==> e.erros_envio == n,
        obtido(ms, "taxa_alvo"@) matches Some(
            EscalarVisto::Numero { natural: Some(n), inteiro, flutuante },
        ) ==> e.taxa_alvo == n,
        obtido(ms, "taxa_real"@) matches Some(
            EscalarVisto::Numero { natural, inteiro, flutuante: Some(x) },
        ) ==> e.taxa_real == x,
        obtido(ms, "enviadas_uteis"@) is None ==> e.enviadas_uteis == 0,
        obtido(ms, "erros_envio"@) is None ==> e.erros_envio == 0,
        obtido(ms, "taxa_alvo"@) is None ==> e.taxa_alvo == 0,
{
}

/// A janela do envio são os segundos entre o fim do aquecimento e o fim, até o arredondamento; e
/// nenhuma, se o fim não vem depois.
pub proof fn lei_janela_do_envio(
    e: EnvioGerador,
    nome: Seq<char>,
    ms: Seq<(Seq<char>, EscalarVisto)>,
    inicio: i64,
    fim: i64,
)
    requires
        envio_contado(e, nome, ms),
        inteiro_do_membro(ms, "inicio_medicao_ns"@) == inicio,
        inteiro_do_membro(ms, "fim_ns"@) == fim,
        fim - inicio < 0x20_0000_0000_0000,
    ensures
        fim >= inicio ==> e.janela_s.finito() && !e.janela_s.negativo() && perto(
            (inteiro(e.janela_s.mag()) * 1_000_000_000) as int,
            (fim - inicio) * um(),
            0x20_0000_0000_0000,
        ),
        fim <= inicio ==> e.janela_s.menor_ou_igual(Real::do_inteiro(0)),
{
    lemma_zero();
    if fim >= inicio {
        lemma_fracao_de_segundo((fim - inicio) as nat);
    }
    if fim < inicio {
        let q = Real::do_inteiro(fim - inicio).quociente(Real::do_inteiro(1_000_000_000));
        lemma_natural_exato(1_000_000_000);
        assert(Real::do_inteiro(fim - inicio).negativo());
        assert(q.nan() || q.negativo());
    }
    if fim == inicio {
        lemma_natural_exato(1_000_000_000);
        lemma_unidade();
        assert(inteiro(0) == 0) by {
            assert(0 * pow2(0) == 0);
        }
        assert(0 * um() == 0);
        lemma_magnitude_nula(0, inteiro(Real::do_inteiro(1_000_000_000).mag()));
    }
}

// ---- Presentes e faltantes ----

/// Cada posição do plano está entre as presentes se e somente se deixou relatório, e entre as
/// faltantes se e somente se não deixou.
pub proof fn lei_presentes_e_faltantes(brutos: Seq<Option<String>>, i: int)
    ensures
        presentes(brutos).contains(i) <==> 0 <= i < brutos.len() && brutos[i] is Some,
        faltantes(brutos).contains(i) <==> 0 <= i < brutos.len() && brutos[i] is None,
        presentes(brutos).len() + faltantes(brutos).len() == brutos.len(),
    decreases brutos.len(),
{
    if brutos.len() > 0 {
        let antes = brutos.drop_last();
        lei_presentes_e_faltantes(antes, i);
        let a = presentes(antes);
        let b = faltantes(antes);
        let k = brutos.len() - 1;
        if brutos.last() is Some {
            assert(presentes(brutos) == a.push(k));
            lemma_empilhado(a, k, i);
        } else {
            assert(faltantes(brutos) == b.push(k));
            lemma_empilhado(b, k, i);
        }
    }
}

proof fn lemma_empilhado(s: Seq<int>, x: int, i: int)
    ensures
        s.push(x).contains(i) <==> s.contains(i) || i == x,
{
    let t = s.push(x);
    if s.contains(i) {
        let j = choose|j: int| 0 <= j < s.len() && s[j] == i;
        assert(t[j] == i);
    }
    if i == x {
        assert(t[s.len() as int] == i);
    }
    if t.contains(i) {
        let j = choose|j: int| 0 <= j < t.len() && t[j] == i;
        if j < s.len() {
            assert(s[j] == i);
        }
    }
}

/// As posições presentes e as faltantes vêm na ordem do plano.
pub proof fn lei_na_ordem_do_plano(brutos: Seq<Option<String>>)
    ensures
        forall|a: int, b: int|
            0 <= a < b < presentes(brutos).len() ==> #[trigger] presentes(brutos)[a]
                < #[trigger] presentes(brutos)[b],
        forall|a: int, b: int|
            0 <= a < b < faltantes(brutos).len() ==> #[trigger] faltantes(brutos)[a]
                < #[trigger] faltantes(brutos)[b],
    decreases brutos.len(),
{
    if brutos.len() > 0 {
        let antes = brutos.drop_last();
        lei_na_ordem_do_plano(antes);
        assert forall|a: int| 0 <= a < presentes(antes).len() implies #[trigger] presentes(antes)[a]
            < brutos.len() - 1 by {
            lei_presentes_e_faltantes(antes, presentes(antes)[a]);
            assert(presentes(antes).contains(presentes(antes)[a]));
        }
        assert forall|a: int| 0 <= a < faltantes(antes).len() implies #[trigger] faltantes(antes)[a]
            < brutos.len() - 1 by {
            lei_presentes_e_faltantes(antes, faltantes(antes)[a]);
            assert(faltantes(antes).contains(faltantes(antes)[a]));
        }
    }
}

// ---- Fim do aquecimento ----

/// O fim do aquecimento de um gerador é o do último relatório com o seu nome; um gerador sem
/// relatório não tem nenhum.
pub proof fn lei_inicios(
    ps: Seq<GeradorPlano>,
    brutos: Seq<Option<String>>,
    nome: Seq<char>,
    k: int,
)
    requires
        -1 <= k < brutos.len() <= ps.len(),
        forall|i: int| k < i < brutos.len() ==> #[trigger] ps[i].nome@ != nome || brutos[i] is None,
        k >= 0 ==> ps[k].nome@ == nome && brutos[k] is Some,
    ensures
        k < 0 ==> obtido(inicios(ps, brutos), nome) is None,
        k >= 0 ==> obtido(inicios(ps, brutos), nome) == Some(
            inteiro_do_membro(objeto_lido(brutos[k]->0@)->0, "inicio_medicao_ns"@) as i128,
        ),
    decreases brutos.len(),
{
    if brutos.len() > 0 {
        let antes = brutos.drop_last();
        let n = brutos.len() - 1;
        if let Some(b) = brutos.last() {
            let v = inteiro_do_membro(objeto_lido(b@)->0, "inicio_medicao_ns"@) as i128;
            lei_obtido_inserido(inicios(ps, antes), ps[n].nome@, v, nome);
        }
        if k < n {
            lei_inicios(ps, antes, nome, k);
            let p = ps[n];
        }
    }
}

// ---- Tamanho médio ----

/// A soma dos tamanhos de mensagem do plano.
pub open spec fn bytes_do_plano(ps: Seq<GeradorPlano>) -> int {
    ps.fold_left(0int, |total: int, p: GeradorPlano| total + p.tamanho_mensagem as int)
}

proof fn lemma_soma_dos_tamanhos(ps: Seq<GeradorPlano>)
    requires
        bytes_do_plano(ps) <= usize::MAX,
    ensures
        soma_dos_tamanhos(ps) == bytes_do_plano(ps),
        bytes_do_plano(ps) >= 0,
    decreases ps.len(),
{
    if ps.len() > 0 {
        let antes = ps.drop_last();
        assert(bytes_do_plano(ps) == bytes_do_plano(antes) + ps.last().tamanho_mensagem as int);
        lemma_soma_dos_tamanhos(antes);
    }
}

/// O tamanho médio é a média inteira dos tamanhos do plano, enquanto a soma é representável; sem
/// geradores, é o do teste.
pub proof fn lei_tamanho_medio(cfg: Config, ps: Seq<GeradorPlano>)
    requires
        bytes_do_plano(ps) <= usize::MAX,
    ensures
        ps.len() == 0 ==> tamanho_medio(cfg, ps) == cfg.teste.tamanho_mensagem,
        ps.len() > 0 ==> tamanho_medio(cfg, ps) * ps.len() <= bytes_do_plano(ps) < (tamanho_medio(
            cfg,
            ps,
        ) + 1) * ps.len(),
{
    lemma_soma_dos_tamanhos(ps);
    if ps.len() > 0 {
        let n = ps.len() as int;
        let s = soma_dos_tamanhos(ps) as int;
        let q = s / n;
        assert(q * n <= s < (q + 1) * n) by (nonlinear_arith)
            requires
                n > 0,
                q == s / n,
        ;
    }
}

/// Lidos os relatórios, há um envio por gerador que o deixou, na ordem do plano: o `k`-ésimo é o do
/// `k`-ésimo presente, com o nome dele e os números que ele relatou.
pub proof fn lei_relatados(
    es: Seq<EnvioGerador>,
    ps: Seq<GeradorPlano>,
    brutos: Seq<Option<String>>,
    k: int,
)
    requires
        relatados(es, ps, brutos, presentes(brutos)),
        brutos.len() == ps.len(),
        0 <= k < es.len(),
    ensures
        es.len() == presentes(brutos).len(),
        ({
            let i = presentes(brutos)[k];
            &&& 0 <= i < ps.len()
            &&& brutos[i] is Some
            &&& es[k].nome@ == ps[i].nome@
            &&& envio_contado(es[k], ps[i].nome@, objeto_lido(brutos[i]->0@)->0)
        }),
{
    let i = presentes(brutos)[k];
    assert(presentes(brutos).contains(i));
    lei_presentes_e_faltantes(brutos, i);
    let e = es[k];
}

} // verus!
