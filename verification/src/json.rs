//! Leitura de objetos JSON.

use vstd::prelude::*;
use vstd::string::*;

use crate::reais::Real;
use crate::tabela::obtido;
use crate::texto::iguais;

verus! {

/// O valor de um membro de um objeto JSON.
pub enum Escalar {
    Texto(String),
    /// Um número: como natural e como inteiro, se é um que caiba em 64 bits, e em ponto flutuante.
    Numero { natural: Option<u64>, inteiro: Option<i64>, flutuante: Option<Real> },
    Outro,
}

pub enum EscalarVisto {
    Texto(Seq<char>),
    Numero { natural: Option<u64>, inteiro: Option<i64>, flutuante: Option<Real> },
    Outro,
}

impl View for Escalar {
    type V = EscalarVisto;

    open spec fn view(&self) -> EscalarVisto {
        match *self {
            Escalar::Texto(s) => EscalarVisto::Texto(s@),
            Escalar::Numero { natural, inteiro, flutuante } => EscalarVisto::Numero {
                natural,
                inteiro,
                flutuante,
            },
            Escalar::Outro => EscalarVisto::Outro,
        }
    }
}

/// Os membros de um objeto.
pub open spec fn membros(ms: Seq<(String, Escalar)>) -> Seq<(Seq<char>, EscalarVisto)> {
    Seq::new(ms.len(), |i: int| (ms[i].0@, ms[i].1@))
}

/// Os membros do objeto JSON que o texto escreve: nenhum se o valor não é um objeto, e `None` se o
/// texto não é JSON.
pub uninterp spec fn objeto_lido(s: Seq<char>) -> Option<Seq<(Seq<char>, EscalarVisto)>>;

/// `serde_json::from_str`: os membros do valor que o texto escreve, na ordem do objeto. Textos e
/// números vêm por extenso, os outros valores sem distinção. Depende só do texto.
#[verifier::external_body]
pub(crate) fn ler_objeto(s: &str) -> (r: Option<Vec<(String, Escalar)>>)
    ensures
        match r {
            Some(ms) => objeto_lido(s@) == Some(membros(ms@)),
            None => objeto_lido(s@) is None,
        },
{
    let m = match serde_json::from_str(s) {
        Ok(serde_json::Value::Object(m)) => m,
        Ok(_) => return Some(Vec::new()),
        Err(_) => return None,
    };
    let valor = |v| match v {
        serde_json::Value::String(t) => Escalar::Texto(t),
        serde_json::Value::Number(n) => {
            let flutuante = n.as_f64().map(|x| Real { bits: x.to_bits() });
            Escalar::Numero { natural: n.as_u64(), inteiro: n.as_i64(), flutuante }
        },
        _ => Escalar::Outro,
    };
    Some(m.into_iter().map(|(k, v)| (k, valor(v))).collect())
}

/// O texto do membro, ou vazio.
pub open spec fn texto_do_membro(ms: Seq<(Seq<char>, EscalarVisto)>, chave: Seq<char>) -> Seq<char> {
    match obtido(ms, chave) {
        Some(EscalarVisto::Texto(s)) => s,
        _ => Seq::empty(),
    }
}

/// O natural do membro.
pub open spec fn natural_do_membro(
    ms: Seq<(Seq<char>, EscalarVisto)>,
    chave: Seq<char>,
) -> Option<u64> {
    match obtido(ms, chave) {
        Some(EscalarVisto::Numero { natural, inteiro, flutuante }) => natural,
        _ => None,
    }
}

/// O inteiro do membro, ou zero.
pub open spec fn inteiro_do_membro(ms: Seq<(Seq<char>, EscalarVisto)>, chave: Seq<char>) -> i64 {
    match obtido(ms, chave) {
        Some(EscalarVisto::Numero { natural, inteiro: Some(n), flutuante }) => n,
        _ => 0,
    }
}

/// O número do membro em ponto flutuante, ou zero.
pub open spec fn real_do_membro(ms: Seq<(Seq<char>, EscalarVisto)>, chave: Seq<char>) -> Real {
    match obtido(ms, chave) {
        Some(EscalarVisto::Numero { natural, inteiro, flutuante: Some(x) }) => x,
        _ => Real::do_inteiro(0),
    }
}

/// O natural do membro, ou zero.
pub open spec fn numero_do_membro(ms: Seq<(Seq<char>, EscalarVisto)>, chave: Seq<char>) -> u64 {
    match natural_do_membro(ms, chave) {
        Some(n) => n,
        None => 0,
    }
}

fn achar_membro(ms: &Vec<(String, Escalar)>, chave: &str) -> (r: Option<usize>)
    ensures
        match r {
            Some(i) => i < ms@.len() && obtido(membros(ms@), chave@) == Some(ms@[i as int].1@),
            None => obtido(membros(ms@), chave@) is None,
        },
{
    let ghost s = membros(ms@);
    let mut i: usize = 0;
    proof {
        assert(s.skip(0) =~= s);
    }
    while i < ms.len()
        invariant
            i <= ms@.len(),
            s == membros(ms@),
            obtido(s.skip(i as int), chave@) == obtido(s, chave@),
        decreases ms@.len() - i,
    {
        proof {
            assert(s.skip(i as int)[0] == s[i as int]);
            assert(s.skip(i as int).skip(1) =~= s.skip(i + 1));
        }
        if iguais(ms[i].0.as_str(), chave) {
            return Some(i);
        }
        i = i + 1;
    }
    None
}

/// O texto do membro, ou vazio.
pub fn ler_texto(ms: &Vec<(String, Escalar)>, chave: &str) -> (r: String)
    ensures
        r@ == texto_do_membro(membros(ms@), chave@),
{
    match achar_membro(ms, chave) {
        Some(i) => match &ms[i].1 {
            Escalar::Texto(s) => s.clone(),
            _ => String::new(),
        },
        None => String::new(),
    }
}

/// O natural do membro.
pub fn ler_natural(ms: &Vec<(String, Escalar)>, chave: &str) -> (r: Option<u64>)
    ensures
        r == natural_do_membro(membros(ms@), chave@),
{
    match achar_membro(ms, chave) {
        Some(i) => match &ms[i].1 {
            Escalar::Numero { natural, inteiro: _, flutuante: _ } => *natural,
            _ => None,
        },
        None => None,
    }
}

/// O natural do membro, ou zero.
pub fn ler_numero(ms: &Vec<(String, Escalar)>, chave: &str) -> (r: u64)
    ensures
        r == numero_do_membro(membros(ms@), chave@),
{
    match ler_natural(ms, chave) {
        Some(n) => n,
        None => 0,
    }
}

/// O inteiro do membro, ou zero.
pub fn ler_inteiro(ms: &Vec<(String, Escalar)>, chave: &str) -> (r: i64)
    ensures
        r == inteiro_do_membro(membros(ms@), chave@),
{
    match achar_membro(ms, chave) {
        Some(i) => match &ms[i].1 {
            Escalar::Numero { natural: _, inteiro: Some(n), flutuante: _ } => *n,
            _ => 0,
        },
        None => 0,
    }
}

/// O número do membro em ponto flutuante, ou zero.
pub fn ler_real(ms: &Vec<(String, Escalar)>, chave: &str) -> (r: Real)
    ensures
        r == real_do_membro(membros(ms@), chave@),
{
    match achar_membro(ms, chave) {
        Some(i) => match &ms[i].1 {
            Escalar::Numero { natural: _, inteiro: _, flutuante: Some(x) } => *x,
            _ => Real::de_u64(0),
        },
        None => Real::de_u64(0),
    }
}

} // verus!
