//! Trechos de um texto: onde ele acaba e o que fica entre dois deles.

use vstd::prelude::*;

use crate::texto::{comeca, contem};

verus! {

pub proof fn lemma_no_meio(a: Seq<char>, b: Seq<char>, c: Seq<char>)
    ensures
        contem(a + b + c, b),
{
    let s = a + b + c;
    let i = a.len() as int;
    assert(s.subrange(i, i + b.len()) =~= b);
}

pub proof fn lemma_contem_em(a: Seq<char>, s: Seq<char>, c: Seq<char>, t: Seq<char>)
    requires
        contem(s, t),
    ensures
        contem(a + s + c, t),
{
    let i = choose|i: int|
        0 <= i && i + t.len() <= s.len() && #[trigger] s.subrange(i, i + t.len()) == t;
    let j = a.len() + i;
    assert((a + s + c).subrange(j, j + t.len()) =~= t);
}

/// Se o texto acaba por `p`.
pub open spec fn acaba(s: Seq<char>, p: Seq<char>) -> bool {
    p.len() <= s.len() && s.skip(s.len() - p.len()) == p
}

/// O que fica entre o fim de um trecho e o começo do outro.
pub proof fn lemma_entre(
    antes: Seq<char>,
    a: Seq<char>,
    valor: Seq<char>,
    b: Seq<char>,
    depois: Seq<char>,
    fim: Seq<char>,
    inicio: Seq<char>,
)
    requires
        acaba(a, fim),
        comeca(b, inicio),
    ensures
        contem(antes + a + valor + b + depois, fim + valor + inicio),
{
    let s = antes + a + valor + b + depois;
    let t = fim + valor + inicio;
    let i = antes.len() + a.len() - fim.len();
    assert forall|k: int| 0 <= k < t.len() implies s.subrange(i, i + t.len())[k] == t[k] by {
        if k < fim.len() {
            assert(fim[k] == a.skip(a.len() - fim.len())[k]);
        } else if k >= fim.len() + valor.len() {
            let j = k - fim.len() - valor.len();
            assert(inicio[j] == b.take(inicio.len() as int)[j]);
        }
    }
    assert(s.subrange(i, i + t.len()) =~= t);
}

pub proof fn lemma_trecho(s: Seq<char>, t: Seq<char>, i: int, j: int)
    requires
        0 <= i,
        j == i + t.len(),
        j <= s.len(),
        s.subrange(i, j) == t,
    ensures
        contem(s, t),
{
}

/// O que um texto contém continua nele quando algo se acrescenta.
pub proof fn lemma_cresce(s: Seq<char>, x: Seq<char>)
    ensures
        forall|t: Seq<char>| contem(s, t) ==> #[trigger] contem(s + x, t),
{
    assert forall|t: Seq<char>| contem(s, t) implies #[trigger] contem(s + x, t) by {
        lemma_contem_em(Seq::empty(), s, x, t);
        assert(Seq::empty() + s + x =~= s + x);
    }
}

/// O fim de um texto está nele.
pub proof fn lemma_no_fim(a: Seq<char>, b: Seq<char>)
    ensures
        contem(a + b, b),
{
    let s = a + b;
    let i = a.len() as int;
    assert(s.subrange(i, i + b.len()) =~= b);
}

/// Depois de um rótulo, um valor e o rótulo seguinte ficam no texto, e o que estava nele continua.
pub proof fn lemma_rotulado(p: Seq<char>, a: Seq<char>, valor: Seq<char>, b: Seq<char>)
    ensures
        contem(p + a + valor + b, a + valor + b),
        forall|t: Seq<char>| contem(p + a, t) ==> #[trigger] contem(p + a + valor + b, t),
{
    let fim = a + valor + b;
    assert(p + a + valor =~= p + (a + valor));
    assert(p + (a + valor) + b =~= p + fim);
    lemma_no_fim(p, fim);
    lemma_cresce(p + a, valor);
    lemma_cresce(p + a + valor, b);
}

pub proof fn lemma_associa(a: Seq<char>, b: Seq<char>, c: Seq<char>)
    ensures
        a + b + c == a + (b + c),
        Seq::<char>::empty() + c == c,
{
    assert(a + b + c =~= a + (b + c));
    assert(Seq::<char>::empty() + c =~= c);
}

} // verus!
