//! Tabelas de texto para valor, percorridas na ordem das chaves.

use vstd::prelude::*;
use vstd::string::*;

use crate::texto::{
    antes, iguais, lemma_antes_irreflexiva, lemma_antes_total, lemma_antes_transitiva, vem_antes,
};

verus! {

/// Pares de chave e valor. As tabelas feitas com `por` a partir da vazia têm as chaves em ordem
/// crescente, cada uma uma vez.
pub struct Tabela<T> {
    pub itens: Vec<(String, T)>,
}

impl<T> View for Tabela<T> {
    type V = Seq<(Seq<char>, T)>;

    open spec fn view(&self) -> Seq<(Seq<char>, T)> {
        Seq::new(self.itens@.len(), |i: int| (self.itens@[i].0@, self.itens@[i].1))
    }
}

/// O valor da chave.
pub open spec fn obtido<T>(s: Seq<(Seq<char>, T)>, chave: Seq<char>) -> Option<T>
    decreases s.len(),
{
    if s.len() == 0 {
        None
    } else if s[0].0 == chave {
        Some(s[0].1)
    } else {
        obtido(s.skip(1), chave)
    }
}

/// A tabela com a chave no seu lugar da ordem e com esse valor.
pub open spec fn inserido<T>(s: Seq<(Seq<char>, T)>, chave: Seq<char>, v: T) -> Seq<(Seq<char>, T)>
    decreases s.len(),
{
    if s.len() == 0 {
        seq![(chave, v)]
    } else if s[0].0 == chave {
        seq![(chave, v)] + s.skip(1)
    } else if antes(chave, s[0].0) {
        seq![(chave, v)] + s
    } else {
        seq![s[0]] + inserido(s.skip(1), chave, v)
    }
}

/// Se as chaves estão em ordem crescente, sem repetição.
pub open spec fn ordenada<T>(s: Seq<(Seq<char>, T)>) -> bool {
    forall|i: int, j: int| 0 <= i < j < s.len() ==> antes(#[trigger] s[i].0, #[trigger] s[j].0)
}

/// A soma dos valores.
pub open spec fn soma(s: Seq<(Seq<char>, u64)>) -> int
    decreases s.len(),
{
    if s.len() == 0 {
        0
    } else {
        s[0].1 + soma(s.skip(1))
    }
}

/// O valor da chave como contador: zero enquanto ela não existe.
pub open spec fn contagem(s: Seq<(Seq<char>, u64)>, chave: Seq<char>) -> u64 {
    match obtido(s, chave) {
        Some(n) => n,
        None => 0,
    }
}

/// A tabela com o contador da chave um acima.
pub open spec fn contado(s: Seq<(Seq<char>, u64)>, chave: Seq<char>) -> Seq<(Seq<char>, u64)> {
    inserido(s, chave, (contagem(s, chave) + 1) as u64)
}

/// Ler depois de inserir dá o valor inserido, e as outras chaves ficam como estavam.
pub proof fn lei_obtido_inserido<T>(
    s: Seq<(Seq<char>, T)>,
    chave: Seq<char>,
    v: T,
    outra: Seq<char>,
)
    ensures
        obtido(inserido(s, chave, v), chave) == Some(v),
        outra != chave ==> obtido(inserido(s, chave, v), outra) == obtido(s, outra),
    decreases s.len(),
{
    let r = inserido(s, chave, v);
    if s.len() == 0 {
        assert(r.skip(1) =~= s);
    } else if s[0].0 == chave {
        assert(r.skip(1) =~= s.skip(1));
    } else if antes(chave, s[0].0) {
        assert(r.skip(1) =~= s);
    } else {
        lei_obtido_inserido(s.skip(1), chave, v, outra);
        assert(r.skip(1) =~= inserido(s.skip(1), chave, v));
    }
}

/// As chaves de uma tabela depois de inserir são as de antes e a inserida.
proof fn lemma_chaves_inseridas<T>(s: Seq<(Seq<char>, T)>, chave: Seq<char>, v: T, i: int)
    requires
        0 <= i < inserido(s, chave, v).len(),
    ensures
        inserido(s, chave, v)[i].0 == chave || exists|j: int|
            0 <= j < s.len() && (#[trigger] s[j]).0 == inserido(s, chave, v)[i].0,
    decreases s.len(),
{
    let r = inserido(s, chave, v);
    if s.len() == 0 {
    } else if s[0].0 == chave {
        if i > 0 {
            assert(r[i] == s[i]);
        }
    } else if antes(chave, s[0].0) {
        if i > 0 {
            assert(r[i] == s[i - 1]);
        }
    } else if i == 0 {
        assert(r[0] == s[0]);
    } else {
        lemma_chaves_inseridas(s.skip(1), chave, v, i - 1);
        assert(r[i] == inserido(s.skip(1), chave, v)[i - 1]);
        if r[i].0 != chave {
            let j = choose|j: int|
                0 <= j < s.skip(1).len() && (#[trigger] s.skip(1)[j]).0 == r[i].0;
            assert(s[j + 1].0 == r[i].0);
        }
    }
}

/// Inserir conserva a ordem das chaves, cada uma uma vez.
pub proof fn lei_inserido_ordenada<T>(s: Seq<(Seq<char>, T)>, chave: Seq<char>, v: T)
    requires
        ordenada(s),
    ensures
        ordenada(inserido(s, chave, v)),
    decreases s.len(),
{
    let r = inserido(s, chave, v);
    if s.len() == 0 {
    } else if s[0].0 == chave {
        assert forall|i: int, j: int| 0 <= i < j < r.len() implies antes(
            #[trigger] r[i].0,
            #[trigger] r[j].0,
        ) by {
            assert(r[i].0 == s[i].0);
            assert(r[j].0 == s[j].0);
        }
    } else if antes(chave, s[0].0) {
        assert forall|i: int, j: int| 0 <= i < j < r.len() implies antes(
            #[trigger] r[i].0,
            #[trigger] r[j].0,
        ) by {
            assert(r[j] == s[j - 1]);
            if i > 0 {
                assert(r[i] == s[i - 1]);
            } else if j > 1 {
                assert(antes(s[0].0, s[j - 1].0));
                lemma_antes_transitiva(chave, s[0].0, s[j - 1].0);
            }
        }
    } else {
        let t = s.skip(1);
        assert(ordenada(t)) by {
            assert forall|i: int, j: int| 0 <= i < j < t.len() implies antes(
                #[trigger] t[i].0,
                #[trigger] t[j].0,
            ) by {
                assert(t[i] == s[i + 1]);
                assert(t[j] == s[j + 1]);
            }
        }
        lei_inserido_ordenada(t, chave, v);
        lemma_antes_total(chave, s[0].0);
        let u = inserido(t, chave, v);
        assert forall|i: int, j: int| 0 <= i < j < r.len() implies antes(
            #[trigger] r[i].0,
            #[trigger] r[j].0,
        ) by {
            assert(r[j] == u[j - 1]);
            if i > 0 {
                assert(r[i] == u[i - 1]);
            } else {
                lemma_chaves_inseridas(t, chave, v, j - 1);
                if u[j - 1].0 != chave {
                    let k = choose|k: int| 0 <= k < t.len() && (#[trigger] t[k]).0 == u[j - 1].0;
                    assert(s[k + 1].0 == u[j - 1].0);
                    assert(antes(s[0].0, s[k + 1].0));
                }
            }
        }
    }
}

proof fn lemma_resto_ordenado<T>(s: Seq<(Seq<char>, T)>)
    requires
        ordenada(s),
        s.len() > 0,
    ensures
        ordenada(s.skip(1)),
{
    let t = s.skip(1);
    assert forall|i: int, j: int| 0 <= i < j < t.len() implies antes(
        #[trigger] t[i].0,
        #[trigger] t[j].0,
    ) by {
        assert(t[i] == s[i + 1]);
        assert(t[j] == s[j + 1]);
    }
}

/// Uma chave anterior a todas não está na tabela.
proof fn lemma_ausente<T>(s: Seq<(Seq<char>, T)>, chave: Seq<char>)
    requires
        ordenada(s),
        s.len() > 0 ==> antes(chave, s[0].0),
    ensures
        obtido(s, chave) is None,
    decreases s.len(),
{
    if s.len() > 0 {
        lemma_antes_irreflexiva(chave);
        lemma_resto_ordenado(s);
        if s.len() > 1 {
            assert(antes(s[0].0, s[1].0));
            lemma_antes_transitiva(chave, s[0].0, s[1].0);
            assert(s.skip(1)[0] == s[1]);
        }
        lemma_ausente(s.skip(1), chave);
    }
}

/// Uma tabela ordenada é determinada pelo valor de cada chave.
pub proof fn lei_tabela_determinada<T>(s: Seq<(Seq<char>, T)>, t: Seq<(Seq<char>, T)>)
    requires
        ordenada(s),
        ordenada(t),
        forall|chave: Seq<char>| #[trigger] obtido(s, chave) == obtido(t, chave),
    ensures
        s == t,
    decreases s.len(),
{
    if s.len() == 0 {
        if t.len() > 0 {
            assert(obtido(s, t[0].0) == obtido(t, t[0].0));
        }
        assert(s =~= t);
    } else {
        let k = s[0].0;
        assert(obtido(s, k) == obtido(t, k));
        assert(t.len() > 0);
        assert(obtido(s, t[0].0) == obtido(t, t[0].0));
        if antes(k, t[0].0) {
            lemma_ausente(t, k);
        } else if antes(t[0].0, k) {
            lemma_ausente(s, t[0].0);
        } else if k != t[0].0 {
            lemma_antes_total(k, t[0].0);
        }
        assert(s[0] == t[0]);
        let a = s.skip(1);
        let b = t.skip(1);
        lemma_resto_ordenado(s);
        lemma_resto_ordenado(t);
        assert forall|chave: Seq<char>| #[trigger] obtido(a, chave) == obtido(b, chave) by {
            if chave == k {
                if s.len() > 1 {
                    assert(antes(s[0].0, s[1].0));
                    assert(a[0] == s[1]);
                }
                if t.len() > 1 {
                    assert(antes(t[0].0, t[1].0));
                    assert(b[0] == t[1]);
                }
                lemma_ausente(a, k);
                lemma_ausente(b, k);
            } else {
                assert(obtido(s, chave) == obtido(t, chave));
            }
        }
        lei_tabela_determinada(a, b);
        assert(s =~= seq![s[0]] + a);
        assert(t =~= seq![t[0]] + b);
    }
}

/// Inserir muda a soma na diferença entre o valor novo e o anterior.
pub proof fn lei_soma_inserido(s: Seq<(Seq<char>, u64)>, chave: Seq<char>, v: u64)
    requires
        ordenada(s),
    ensures
        soma(inserido(s, chave, v)) == soma(s) + v - contagem(s, chave),
    decreases s.len(),
{
    let r = inserido(s, chave, v);
    if s.len() == 0 {
        assert(r.skip(1) =~= s);
    } else if s[0].0 == chave {
        assert(r.skip(1) =~= s.skip(1));
    } else if antes(chave, s[0].0) {
        lemma_ausente(s, chave);
        assert(r.skip(1) =~= s);
    } else {
        lemma_resto_ordenado(s);
        lei_soma_inserido(s.skip(1), chave, v);
        assert(r.skip(1) =~= inserido(s.skip(1), chave, v));
    }
}

/// Nenhum contador passa da soma.
pub proof fn lemma_contagem_ate_soma(s: Seq<(Seq<char>, u64)>, chave: Seq<char>)
    ensures
        0 <= contagem(s, chave) <= soma(s),
    decreases s.len(),
{
    if s.len() > 0 {
        lemma_contagem_ate_soma(s.skip(1), chave);
    }
}

impl<T: Copy> Tabela<T> {
    /// A tabela vazia.
    pub fn nova() -> (r: Tabela<T>)
        ensures
            r@ == Seq::<(Seq<char>, T)>::empty(),
    {
        let r = Tabela { itens: Vec::new() };
        proof {
            assert(r@ =~= Seq::<(Seq<char>, T)>::empty());
        }
        r
    }

    /// Uma cópia da tabela.
    pub fn copia(&self) -> (r: Tabela<T>)
        ensures
            r@ == self@,
    {
        let mut itens: Vec<(String, T)> = Vec::new();
        let mut i: usize = 0;
        while i < self.itens.len()
            invariant
                i <= self.itens@.len(),
                itens@ == self.itens@.take(i as int),
            decreases self.itens@.len() - i,
        {
            itens.push((self.itens[i].0.clone(), self.itens[i].1));
            i = i + 1;
            proof {
                assert(itens@ =~= self.itens@.take(i as int));
            }
        }
        proof {
            assert(self.itens@.take(self.itens@.len() as int) =~= self.itens@);
        }
        Tabela { itens }
    }

    /// O valor da chave.
    pub fn obter(&self, chave: &str) -> (r: Option<T>)
        ensures
            r == obtido(self@, chave@),
    {
        let mut i: usize = 0;
        proof {
            assert(self@.skip(0) =~= self@);
        }
        while i < self.itens.len()
            invariant
                i <= self.itens@.len(),
                obtido(self@.skip(i as int), chave@) == obtido(self@, chave@),
            decreases self.itens@.len() - i,
        {
            proof {
                assert(self@.skip(i as int)[0] == self@[i as int]);
                assert(self@.skip(i as int).skip(1) =~= self@.skip(i + 1));
            }
            if iguais(self.itens[i].0.as_str(), chave) {
                return Some(self.itens[i].1);
            }
            i = i + 1;
        }
        None
    }

    /// Dá esse valor à chave.
    pub fn por(&mut self, chave: &str, v: T)
        ensures
            final(self)@ == inserido(old(self)@, chave@, v),
    {
        let ghost s = self@;
        let mut i: usize = 0;
        proof {
            assert(s.skip(0) =~= s);
            assert(s.take(0) + inserido(s, chave@, v) =~= inserido(s, chave@, v));
        }
        while i < self.itens.len() && !iguais(self.itens[i].0.as_str(), chave) && !vem_antes(
            chave,
            self.itens[i].0.as_str(),
        )
            invariant
                i <= self.itens@.len(),
                s == self@,
                inserido(s, chave@, v) == s.take(i as int) + inserido(s.skip(i as int), chave@, v),
            decreases self.itens@.len() - i,
        {
            proof {
                let t = s.skip(i as int);
                assert(t[0] == s[i as int]);
                assert(t.skip(1) =~= s.skip(i + 1));
                assert(s.take(i as int) + (seq![t[0]] + inserido(t.skip(1), chave@, v))
                    =~= s.take(i + 1) + inserido(s.skip(i + 1), chave@, v));
            }
            i = i + 1;
        }
        proof {
            let t = s.skip(i as int);
            if i < s.len() {
                assert(t[0] == s[i as int]);
            }
        }
        if i < self.itens.len() && iguais(self.itens[i].0.as_str(), chave) {
            self.itens.set(i, (chave.to_owned(), v));
            proof {
                assert(self@ =~= s.take(i as int) + (seq![(chave@, v)] + s.skip(i as int).skip(1)));
            }
        } else {
            self.itens.insert(i, (chave.to_owned(), v));
            proof {
                assert(self@ =~= s.take(i as int) + inserido(s.skip(i as int), chave@, v));
            }
        }
    }
}

impl Tabela<u64> {
    /// Sobe de um o contador da chave.
    pub fn contar(&mut self, chave: &str)
        requires
            contagem(old(self)@, chave@) < u64::MAX,
        ensures
            final(self)@ == contado(old(self)@, chave@),
    {
        let n: u64 = match self.obter(chave) {
            Some(n) => n,
            None => 0,
        };
        self.por(chave, n + 1);
    }

    /// O contador da chave: zero enquanto ela não existe.
    pub fn ler(&self, chave: &str) -> (r: u64)
        ensures
            r == contagem(self@, chave@),
    {
        match self.obter(chave) {
            Some(n) => n,
            None => 0,
        }
    }
}

proof fn lemma_soma_ultimo(s: Seq<(Seq<char>, u64)>)
    requires
        s.len() > 0,
    ensures
        soma(s) == soma(s.drop_last()) + s.last().1,
        0 <= soma(s.drop_last()),
    decreases s.len(),
{
    if s.len() == 1 {
        assert(s.skip(1) =~= s.drop_last());
    } else {
        lemma_soma_ultimo(s.skip(1));
        assert(s.skip(1).drop_last() =~= s.drop_last().skip(1));
        assert(s.drop_last()[0] == s[0]);
    }
}

impl Tabela<u64> {
    /// A soma dos valores, módulo 2^64.
    pub fn somar(&self) -> (r: u64)
        ensures
            r == soma(self@) % 0x1_0000_0000_0000_0000,
    {
        let mut r: u64 = 0;
        let mut i: usize = 0;
        while i < self.itens.len()
            invariant
                i <= self.itens@.len(),
                r == soma(self@.take(i as int)) % 0x1_0000_0000_0000_0000,
            decreases self.itens@.len() - i,
        {
            proof {
                lemma_soma_ultimo(self@.take(i + 1));
                assert(self@.take(i + 1).drop_last() =~= self@.take(i as int));
            }
            r = r.wrapping_add(self.itens[i].1);
            i = i + 1;
        }
        proof {
            assert(self@.take(self.itens@.len() as int) =~= self@);
        }
        r
    }
}

} // verus!
