//! Operações sobre texto, descritas sobre sequências de caracteres.

use vstd::prelude::*;
use vstd::string::*;

use crate::decimal::{
    algarismos, caractere, de_cima, dez, digitos, lemma_de_cima, lemma_digitos_preenchidos,
    lemma_valor_empilhado, lemma_valor_limite, validos,
};

verus! {

/// `String::push` acrescenta um caractere ao fim do texto.
pub assume_specification[ String::push ](s: &mut String, c: char)
    ensures
        final(s)@ == old(s)@.push(c),
;

/// Os caracteres de um texto.
pub fn caracteres(s: &str) -> (r: Vec<char>)
    ensures
        r@ == s@,
{
    let mut r: Vec<char> = Vec::new();
    for c in it: s.chars()
        invariant
            r@ == s@.take(it.index() as int),
            it.seq() == s@,
    {
        r.push(c);
    }
    proof {
        assert(s@.take(s@.len() as int) =~= s@);
    }
    r
}

/// O texto formado pelos caracteres de `de` a `ate`.
pub fn trecho(cs: &Vec<char>, de: usize, ate: usize) -> (r: String)
    requires
        de <= ate <= cs@.len(),
    ensures
        r@ == cs@.subrange(de as int, ate as int),
{
    let mut r = String::new();
    let mut i: usize = de;
    while i < ate
        invariant
            de <= i <= ate <= cs@.len(),
            r@ == cs@.subrange(de as int, i as int),
        decreases ate - i,
    {
        r.push(cs[i]);
        i = i + 1;
        proof {
            assert(cs@.subrange(de as int, i as int) =~= cs@.subrange(de as int, i - 1).push(
                cs@[i - 1],
            ));
        }
    }
    r
}

/// Os espaços em branco do Unicode.
pub open spec fn espaco(c: char) -> bool {
    let u = c as u32;
    ||| 0x09 <= u <= 0x0d
    ||| u == 0x20
    ||| u == 0x85
    ||| u == 0xa0
    ||| u == 0x1680
    ||| 0x2000 <= u <= 0x200a
    ||| u == 0x2028
    ||| u == 0x2029
    ||| u == 0x202f
    ||| u == 0x205f
    ||| u == 0x3000
}

/// Os espaços em branco do ASCII.
pub open spec fn espaco_ascii(c: char) -> bool {
    let u = c as u32;
    u == 0x20 || u == 0x09 || u == 0x0a || u == 0x0c || u == 0x0d
}

pub open spec fn sem_espacos_no_inicio(s: Seq<char>) -> Seq<char>
    decreases s.len(),
{
    if s.len() > 0 && espaco(s[0]) {
        sem_espacos_no_inicio(s.drop_first())
    } else {
        s
    }
}

pub open spec fn sem_espacos_no_fim(s: Seq<char>) -> Seq<char>
    decreases s.len(),
{
    if s.len() > 0 && espaco(s.last()) {
        sem_espacos_no_fim(s.drop_last())
    } else {
        s
    }
}

/// O texto sem espaços nas pontas.
pub open spec fn aparado(s: Seq<char>) -> Seq<char> {
    sem_espacos_no_fim(sem_espacos_no_inicio(s))
}

/// Se o caractere é espaço em branco.
pub fn eh_espaco(c: char) -> (r: bool)
    ensures
        r == espaco(c),
{
    let u = c as u32;
    (0x09 <= u && u <= 0x0d) || u == 0x20 || u == 0x85 || u == 0xa0 || u == 0x1680 || (0x2000 <= u
        && u <= 0x200a) || u == 0x2028 || u == 0x2029 || u == 0x202f || u == 0x205f || u == 0x3000
}

/// Se o caractere é espaço em branco ASCII.
pub fn eh_espaco_ascii(c: char) -> (r: bool)
    ensures
        r == espaco_ascii(c),
{
    let u = c as u32;
    u == 0x20 || u == 0x09 || u == 0x0a || u == 0x0c || u == 0x0d
}

/// Onde começa e onde acaba o texto sem espaços nas pontas.
pub fn limites_aparados(cs: &Vec<char>) -> (r: (usize, usize))
    ensures
        r.0 <= r.1 <= cs@.len(),
        cs@.subrange(r.0 as int, r.1 as int) == aparado(cs@),
{
    let total: usize = cs.len();
    let mut i: usize = 0;
    proof {
        assert(cs@.skip(0) =~= cs@);
    }
    while i < total && eh_espaco(cs[i])
        invariant
            i <= total,
            total == cs@.len(),
            sem_espacos_no_inicio(cs@.skip(i as int)) == sem_espacos_no_inicio(cs@),
        decreases total - i,
    {
        proof {
            assert(cs@.skip(i as int).drop_first() =~= cs@.skip(i + 1));
        }
        i = i + 1;
    }
    let ghost t = cs@.skip(i as int);
    let mut j: usize = total;
    proof {
        assert(cs@.subrange(i as int, total as int) =~= t);
    }
    while j > i && eh_espaco(cs[j - 1])
        invariant
            i <= j <= total,
            total == cs@.len(),
            sem_espacos_no_fim(cs@.subrange(i as int, j as int)) == sem_espacos_no_fim(t),
        decreases j,
    {
        proof {
            assert(cs@.subrange(i as int, j as int).drop_last() =~= cs@.subrange(
                i as int,
                j - 1,
            ));
        }
        j = j - 1;
    }
    (i, j)
}

/// O texto sem espaços nas pontas.
pub fn aparar(s: &str) -> (r: String)
    ensures
        r@ == aparado(s@),
{
    let cs = caracteres(s);
    let (i, j) = limites_aparados(&cs);
    trecho(&cs, i, j)
}

/// Os caracteres de `de` a `ate`.
pub fn fatia(cs: &Vec<char>, de: usize, ate: usize) -> (r: Vec<char>)
    requires
        de <= ate <= cs@.len(),
    ensures
        r@ == cs@.subrange(de as int, ate as int),
{
    let mut r: Vec<char> = Vec::new();
    let mut i: usize = de;
    while i < ate
        invariant
            de <= i <= ate <= cs@.len(),
            r@ == cs@.subrange(de as int, i as int),
        decreases ate - i,
    {
        r.push(cs[i]);
        i = i + 1;
        proof {
            assert(r@ =~= cs@.subrange(de as int, i as int));
        }
    }
    r
}

/// O numeral decimal de `n`.
pub fn decimal(n: u128) -> (r: String)
    ensures
        r@ == digitos(n as nat),
{
    let mut r = String::new();
    let mut ds = algarismos(n);
    if ds.len() == 0 {
        ds.push(0);
        proof {
            lemma_valor_empilhado(Seq::empty(), 0);
            assert(Seq::<u8>::empty().push(0) =~= ds@);
        }
    }
    proof {
        lemma_de_cima(ds@);
        lemma_valor_limite(ds@);
        if ds@.len() > 1 {
            let t = ds@.drop_last();
            assert(ds@ =~= t.push(ds@.last()));
            lemma_valor_empilhado(t, ds@.last());
            assert(dez(t.len()) * ds@.last() >= dez(t.len())) by (nonlinear_arith)
                requires
                    ds@.last() >= 1,
            ;
        }
        lemma_digitos_preenchidos(n as nat, ds@.len());
    }
    let total: usize = ds.len();
    let mut i: usize = total;
    while i > 0
        invariant
            i <= total,
            total == ds@.len(),
            validos(ds@),
            r@ == de_cima(ds@).take(total - i),
        decreases i,
    {
        i = i - 1;
        r.push(caractere(ds[i]));
        proof {
            assert(r@ =~= de_cima(ds@).take(total - i));
        }
    }
    proof {
        assert(de_cima(ds@).take(total as int) =~= de_cima(ds@));
    }
    r
}

/// `n` cópias de um caractere.
pub open spec fn repetido(c: char, n: nat) -> Seq<char> {
    Seq::new(n, |i: int| c)
}

/// `n` cópias de um caractere.
pub fn repetir(c: char, n: usize) -> (r: String)
    ensures
        r@ == repetido(c, n as nat),
{
    let mut r = String::new();
    let mut i: usize = 0;
    while i < n
        invariant
            i <= n,
            r@ == repetido(c, i as nat),
        decreases n - i,
    {
        r.push(c);
        i = i + 1;
        proof {
            assert(r@ =~= repetido(c, i as nat));
        }
    }
    r
}

/// Quantos espaços faltam para a largura `w`.
pub open spec fn folga(s: Seq<char>, w: nat) -> Seq<char> {
    if s.len() < w {
        repetido(' ', (w - s.len()) as nat)
    } else {
        Seq::empty()
    }
}

/// O texto alinhado à esquerda em `w` colunas.
pub open spec fn a_esquerda(s: Seq<char>, w: nat) -> Seq<char> {
    s + folga(s, w)
}

/// O texto alinhado à direita em `w` colunas.
pub open spec fn a_direita(s: Seq<char>, w: nat) -> Seq<char> {
    folga(s, w) + s
}

fn preencher(s: &str, w: usize) -> (r: String)
    ensures
        r@ == folga(s@, w as nat),
{
    let n = s.unicode_len();
    if n < w {
        repetir(' ', w - n)
    } else {
        let r = String::new();
        r
    }
}

/// Acrescenta um texto alinhado à esquerda em `w` colunas.
pub fn por_a_esquerda(saida: &mut String, s: &str, w: usize)
    ensures
        final(saida)@ == old(saida)@ + a_esquerda(s@, w as nat),
{
    saida.append(s);
    saida.append(preencher(s, w).as_str());
    proof {
        assert(saida@ =~= old(saida)@ + a_esquerda(s@, w as nat));
    }
}

/// Acrescenta um texto alinhado à direita em `w` colunas.
pub fn por_a_direita(saida: &mut String, s: &str, w: usize)
    ensures
        final(saida)@ == old(saida)@ + a_direita(s@, w as nat),
{
    saida.append(preencher(s, w).as_str());
    saida.append(s);
    proof {
        assert(saida@ =~= old(saida)@ + a_direita(s@, w as nat));
    }
}

/// Troca o ponto decimal pela vírgula.
pub open spec fn com_virgula(s: Seq<char>) -> Seq<char> {
    s.map_values(|c: char| if c == '.' { ',' } else { c })
}

/// Troca o ponto decimal pela vírgula.
pub fn trocar_ponto(s: &str) -> (r: String)
    ensures
        r@ == com_virgula(s@),
{
    let cs = caracteres(s);
    let mut r = String::new();
    let mut i: usize = 0;
    while i < cs.len()
        invariant
            i <= cs@.len(),
            cs@ == s@,
            r@ == com_virgula(s@.take(i as int)),
        decreases cs@.len() - i,
    {
        let c = cs[i];
        if c == '.' {
            r.push(',');
        } else {
            r.push(c);
        }
        i = i + 1;
        proof {
            assert(r@ =~= com_virgula(s@.take(i as int)));
        }
    }
    proof {
        assert(s@.take(s@.len() as int) =~= s@);
    }
    r
}

/// Se os dois textos são iguais.
pub fn iguais(a: &str, b: &str) -> (r: bool)
    ensures
        r == (a@ == b@),
{
    let x = a.to_owned();
    let y = b.to_owned();
    x == y
}

/// Se algum trecho de `s` é `t`.
pub open spec fn contem(s: Seq<char>, t: Seq<char>) -> bool {
    exists|i: int| 0 <= i && i + t.len() <= s.len() && #[trigger] s.subrange(i, i + t.len()) == t
}

/// Se algum trecho de `s` é `t`.
pub fn contem_trecho(s: &str, t: &str) -> (r: bool)
    ensures
        r == contem(s@, t@),
{
    let cs = caracteres(s);
    let ts = caracteres(t);
    let n: usize = cs.len();
    let m: usize = ts.len();
    if m > n {
        return false;
    }
    if m == 0 {
        proof {
            assert(s@.subrange(0, 0 + t@.len() as int) =~= t@);
        }
        return true;
    }
    let mut i: usize = 0;
    while i < n - m + 1
        invariant
            n == cs@.len(),
            m == ts@.len(),
            0 < m <= n,
            cs@ == s@,
            ts@ == t@,
            i <= n - m + 1,
            forall|k: int| 0 <= k < i ==> #[trigger] s@.subrange(k, k + m) != t@,
        decreases n - m + 1 - i,
    {
        let mut j: usize = 0;
        while j < m && cs[i + j] == ts[j]
            invariant
                n == cs@.len(),
                m == ts@.len(),
                i + m <= n,
                j <= m,
                forall|k: int| 0 <= k < j ==> cs@[i + k] == #[trigger] ts@[k],
            decreases m - j,
        {
            j = j + 1;
        }
        if j == m {
            proof {
                assert(s@.subrange(i as int, i + m) =~= t@);
            }
            return true;
        }
        proof {
            assert(s@.subrange(i as int, i + m)[j as int] == cs@[i + j]);
        }
        i = i + 1;
    }
    false
}

/// Se `s` começa por `p`.
pub open spec fn comeca(s: Seq<char>, p: Seq<char>) -> bool {
    p.len() <= s.len() && s.take(p.len() as int) == p
}

/// Se o texto `cs`, a partir de `de`, começa por `p`.
pub fn comeca_em(cs: &Vec<char>, de: usize, p: &str) -> (r: bool)
    requires
        de <= cs@.len(),
    ensures
        r == comeca(cs@.skip(de as int), p@),
{
    let ps = caracteres(p);
    let total: usize = cs.len();
    let m: usize = ps.len();
    if m > total - de {
        return false;
    }
    let mut j: usize = 0;
    while j < m
        invariant
            total == cs@.len(),
            m == ps@.len(),
            ps@ == p@,
            de + m <= total,
            j <= m,
            forall|k: int| 0 <= k < j ==> cs@[de + k] == #[trigger] ps@[k],
        decreases m - j,
    {
        if cs[de + j] != ps[j] {
            proof {
                assert(cs@.skip(de as int).take(m as int)[j as int] != p@[j as int]);
            }
            return false;
        }
        j = j + 1;
    }
    proof {
        assert(cs@.skip(de as int).take(m as int) =~= p@);
    }
    true
}

/// `s` vem antes de `t` na ordem dos caracteres.
pub open spec fn antes(s: Seq<char>, t: Seq<char>) -> bool
    decreases s.len(),
{
    if t.len() == 0 {
        false
    } else if s.len() == 0 {
        true
    } else if s[0] == t[0] {
        antes(s.drop_first(), t.drop_first())
    } else {
        s[0] < t[0]
    }
}

/// Se `a` vem antes de `b`.
pub fn vem_antes(a: &str, b: &str) -> (r: bool)
    ensures
        r == antes(a@, b@),
{
    let x = caracteres(a);
    let y = caracteres(b);
    let mut i: usize = 0;
    proof {
        assert(a@.skip(0) =~= a@);
        assert(b@.skip(0) =~= b@);
    }
    while i < x.len() && i < y.len() && x[i] == y[i]
        invariant
            i <= x@.len(),
            i <= y@.len(),
            x@ == a@,
            y@ == b@,
            antes(a@.skip(i as int), b@.skip(i as int)) == antes(a@, b@),
        decreases x@.len() - i,
    {
        proof {
            assert(a@.skip(i as int).drop_first() =~= a@.skip(i + 1));
            assert(b@.skip(i as int).drop_first() =~= b@.skip(i + 1));
        }
        i = i + 1;
    }
    if i == y.len() {
        false
    } else if i == x.len() {
        true
    } else {
        x[i] < y[i]
    }
}

pub proof fn lemma_antes_irreflexiva(s: Seq<char>)
    ensures
        !antes(s, s),
    decreases s.len(),
{
    if s.len() > 0 {
        lemma_antes_irreflexiva(s.drop_first());
    }
}

pub proof fn lemma_antes_transitiva(a: Seq<char>, b: Seq<char>, c: Seq<char>)
    requires
        antes(a, b),
        antes(b, c),
    ensures
        antes(a, c),
    decreases a.len(),
{
    if a.len() > 0 && a[0] == b[0] && b[0] == c[0] {
        lemma_antes_transitiva(a.drop_first(), b.drop_first(), c.drop_first());
    }
}

pub proof fn lemma_antes_total(a: Seq<char>, b: Seq<char>)
    requires
        a != b,
    ensures
        antes(a, b) || antes(b, a),
    decreases a.len(),
{
    if a.len() == 0 {
        assert(b.len() > 0) by {
            if b.len() == 0 {
                assert(a =~= b);
            }
        }
    } else if b.len() > 0 && a[0] == b[0] {
        if a.drop_first() == b.drop_first() {
            assert(a =~= seq![a[0]] + a.drop_first());
            assert(b =~= seq![b[0]] + b.drop_first());
        }
        lemma_antes_total(a.drop_first(), b.drop_first());
    }
}

/// O texto entre aspas, com os caracteres especiais escapados.
pub uninterp spec fn citado(s: Seq<char>) -> Seq<char>;

/// `format!` com `{:?}` escreve um `str` entre aspas duplas, com os caracteres
/// especiais escapados; o resultado só depende do texto.
#[verifier::external_body]
pub(crate) fn citar(s: &str) -> (r: String)
    ensures
        r@ == citado(s@),
{
    format!("{s:?}")
}

/// Quantos caracteres há antes do primeiro `c`: todos, se ele não ocorre.
pub open spec fn ate(s: Seq<char>, c: char) -> nat
    decreases s.len(),
{
    if s.len() == 0 || s[0] == c {
        0
    } else {
        1 + ate(s.skip(1), c)
    }
}

/// A posição do primeiro `c` a partir de `de`, ou o fim.
pub fn procurar(cs: &Vec<char>, de: usize, c: char) -> (r: usize)
    requires
        de <= cs@.len(),
    ensures
        de <= r <= cs@.len(),
        r - de == ate(cs@.skip(de as int), c),
        r < cs@.len() ==> cs@[r as int] == c,
{
    let total: usize = cs.len();
    let mut i: usize = de;
    while i < total && cs[i] != c
        invariant
            de <= i <= total,
            total == cs@.len(),
            ate(cs@.skip(de as int), c) == (i - de) + ate(cs@.skip(i as int), c),
        decreases total - i,
    {
        proof {
            assert(cs@.skip(i as int)[0] == cs@[i as int]);
            assert(cs@.skip(i as int).skip(1) =~= cs@.skip(i + 1));
        }
        i = i + 1;
    }
    proof {
        if i < total {
            assert(cs@.skip(i as int)[0] == cs@[i as int]);
        }
    }
    i
}

/// O numeral decimal de um inteiro.
pub open spec fn inteiro_decimal(n: int) -> Seq<char> {
    if n < 0 {
        "-"@ + digitos((-n) as nat)
    } else {
        digitos(n as nat)
    }
}

/// Escreve um inteiro em decimal.
pub fn decimal_com_sinal(n: i128) -> (r: String)
    ensures
        r@ == inteiro_decimal(n as int),
{
    if n >= 0 {
        decimal(n as u128)
    } else {
        let modulo: u128 = (-(n + 1)) as u128 + 1;
        let mut r = "-".to_owned();
        r.append(decimal(modulo).as_str());
        r
    }
}

} // verus!
