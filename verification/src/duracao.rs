//! Durações: leitura do texto do arquivo de configuração e contas de tempo.

use vstd::prelude::*;

use crate::leitura::{ler, lido};
use crate::reais::Real;
use crate::texto::{aparado, caracteres, citado, citar, fatia, limites_aparados};

verus! {

/// Um intervalo de tempo em segundos e nanossegundos.
#[derive(Clone, Copy, Debug, PartialEq, Eq, Structural)]
pub struct Duracao {
    pub segundos: u64,
    pub nanos: u32,
}

impl Duracao {
    /// O intervalo em nanossegundos.
    pub open spec fn total(self) -> nat {
        self.segundos as nat * 1_000_000_000 + self.nanos as nat
    }

    /// Se os nanossegundos não completam um segundo.
    pub open spec fn normal(self) -> bool {
        self.nanos < 1_000_000_000
    }

    /// O intervalo em segundos, arredondado como soma de duas parcelas.
    pub open spec fn segundos_reais(self) -> Real {
        Real::do_inteiro(self.segundos as int).soma(
            Real::do_inteiro(self.nanos as int).quociente(Real::do_inteiro(1_000_000_000)),
        )
    }

    pub fn de_segundos(n: u64) -> (r: Duracao)
        ensures
            r.total() == n * 1_000_000_000,
            r.normal(),
    {
        Duracao { segundos: n, nanos: 0 }
    }

    pub fn de_milis(n: u64) -> (r: Duracao)
        ensures
            r.total() == n * 1_000_000,
            r.normal(),
    {
        Duracao { segundos: n / 1000, nanos: (n % 1000) as u32 * 1_000_000 }
    }

    /// O maior intervalo.
    pub fn maxima() -> (r: Duracao)
        ensures
            r.segundos == u64::MAX,
            r.nanos == 999_999_999,
    {
        Duracao { segundos: u64::MAX, nanos: 999_999_999 }
    }

    pub fn zerada(self) -> (r: bool)
        ensures
            r == (self.total() == 0),
    {
        self.segundos == 0 && self.nanos == 0
    }

    /// Se o intervalo é pelo menos tão longo quanto o outro.
    pub fn alcanca(self, outra: Duracao) -> (r: bool)
        ensures
            r == (self.total() >= outra.total()),
    {
        let a: u128 = self.segundos as u128 * 1_000_000_000 + self.nanos as u128;
        let b: u128 = outra.segundos as u128 * 1_000_000_000 + outra.nanos as u128;
        a >= b
    }

    /// O intervalo em segundos.
    pub fn em_segundos(self) -> (r: Real)
        ensures
            r == self.segundos_reais(),
    {
        let fracao = Real::de_u64(self.nanos as u64).dividir(Real::de_u64(1_000_000_000));
        Real::de_u64(self.segundos).somar(fracao)
    }

    /// A soma dos dois intervalos; `None` quando os segundos não cabem em 64 bits.
    pub fn mais(self, outra: Duracao) -> (r: Option<Duracao>)
        requires
            self.normal(),
            outra.normal(),
        ensures
            r is Some <==> (self.total() + outra.total()) / 1_000_000_000 <= u64::MAX,
            r matches Some(d) ==> d.total() == self.total() + outra.total() && d.normal(),
    {
        let nanos: u32 = self.nanos + outra.nanos;
        let vai: u64 = (nanos / 1_000_000_000) as u64;
        let resto: u32 = nanos % 1_000_000_000;
        let segundos: u128 = self.segundos as u128 + outra.segundos as u128 + vai as u128;
        assert(self.total() + outra.total() == segundos * 1_000_000_000 + resto);
        if segundos > u64::MAX as u128 {
            None
        } else {
            Some(Duracao { segundos: segundos as u64, nanos: resto })
        }
    }

    /// O intervalo mais próximo de uma quantidade de segundos; `None` quando ela é
    /// negativa, não é número ou não cabe em 64 bits.
    pub fn de_real(x: Real) -> (r: Option<Duracao>)
        ensures
            r is Some <==> x.cabe_em_duracao(),
            r matches Some(d) ==> d.total() == x.nanos() && d.normal(),
    {
        match x.em_nanos() {
            Some((s, n)) => Some(Duracao { segundos: s, nanos: n }),
            None => None,
        }
    }
}

/// O que impede um texto de ser uma duração.
#[derive(Debug)]
pub enum ErroDuracao {
    Vazia,
    Invalida { texto: String },
}

impl ErroDuracao {
    pub open spec fn texto_da_mensagem(self) -> Seq<char> {
        match self {
            ErroDuracao::Vazia => "duração vazia"@,
            ErroDuracao::Invalida { texto } => "duração inválida: "@ + citado(texto@),
        }
    }

    /// A mensagem mostrada ao usuário.
    pub fn mensagem(&self) -> (r: String)
        ensures
            r@ == self.texto_da_mensagem(),
    {
        match self {
            ErroDuracao::Vazia => "duração vazia".to_owned(),
            ErroDuracao::Invalida { texto } => {
                let mut r = "duração inválida: ".to_owned();
                r.append(citar(texto.as_str()).as_str());
                r
            },
        }
    }
}

/// Se o texto acaba em `c`.
pub open spec fn acaba_em(t: Seq<char>, c: char) -> bool {
    t.len() > 0 && t.last() == c
}

/// A parte numérica de uma duração e quantos segundos vale a sua unidade:
/// `ms`, `s`, `m`, `h`, ou segundos quando não há unidade.
pub open spec fn numero_e_fator(t: Seq<char>) -> (Seq<char>, Real) {
    if acaba_em(t, 's') && acaba_em(t.drop_last(), 'm') {
        (t.drop_last().drop_last(), Real::do_inteiro(1).quociente(Real::do_inteiro(1000)))
    } else if acaba_em(t, 's') {
        (t.drop_last(), Real::do_inteiro(1))
    } else if acaba_em(t, 'm') {
        (t.drop_last(), Real::do_inteiro(60))
    } else if acaba_em(t, 'h') {
        (t.drop_last(), Real::do_inteiro(3600))
    } else {
        (t, Real::do_inteiro(1))
    }
}

/// Os segundos que o texto descreve; `None` quando não é uma duração.
pub open spec fn segundos_lidos(s: Seq<char>) -> Option<Real> {
    let (numero, fator) = numero_e_fator(aparado(s));
    match lido(aparado(numero)) {
        None => None,
        Some(n) => if !n.finito() || n.menor(Real::do_inteiro(0)) {
            None
        } else {
            Some(n.produto(fator))
        },
    }
}

/// Se o texto é uma duração de 2^64 segundos ou mais.
pub open spec fn estoura(s: Seq<char>) -> bool {
    segundos_lidos(s) matches Some(x) && !x.cabe_em_duracao()
}

fn ler_segundos(texto: &str) -> (r: Option<Real>)
    ensures
        r == segundos_lidos(texto@),
{
    let cs = caracteres(texto);
    let (i, j) = limites_aparados(&cs);
    let t = fatia(&cs, i, j);
    let n: usize = t.len();
    let um = Real::de_u64(1);
    // "ms" vem antes de "s", senão o sufixo colide.
    let (fim, fator): (usize, Real) = if n > 1 && t[n - 1] == 's' && t[n - 2] == 'm' {
        (n - 2, um.dividir(Real::de_u64(1000)))
    } else if n > 0 && t[n - 1] == 's' {
        (n - 1, um)
    } else if n > 0 && t[n - 1] == 'm' {
        (n - 1, Real::de_u64(60))
    } else if n > 0 && t[n - 1] == 'h' {
        (n - 1, Real::de_u64(3600))
    } else {
        (n, um)
    };
    proof {
        assert(t@.subrange(0, fim as int) =~= numero_e_fator(t@).0);
    }
    let numero = fatia(&t, 0, fim);
    let (a, b) = limites_aparados(&numero);
    let limpo = fatia(&numero, a, b);
    match ler(&limpo) {
        None => None,
        Some(x) => if x.magnitude() >= crate::arredonda::INFINITO || x.abaixo(Real::de_u64(0)) {
            None
        } else {
            Some(x.multiplicar(fator))
        },
    }
}

/// Se o texto é uma duração longa demais para [`analisar_duracao`].
pub fn duracao_estoura(texto: &str) -> (r: bool)
    ensures
        r == estoura(texto@),
{
    match ler_segundos(texto) {
        Some(x) => Duracao::de_real(x).is_none(),
        None => false,
    }
}

/// Aceita `"500ms"`, `"60s"`, `"5m"`, `"1h"` ou um número puro (segundos).
pub fn analisar_duracao(texto: &str) -> (r: Result<Duracao, ErroDuracao>)
    requires
        !estoura(texto@),
    ensures
        match r {
            Ok(d) => segundos_lidos(texto@) matches Some(x) && d.total() == x.nanos()
                && d.normal(),
            Err(ErroDuracao::Vazia) => aparado(texto@).len() == 0,
            Err(ErroDuracao::Invalida { texto: t }) => aparado(texto@).len() > 0
                && segundos_lidos(texto@) is None && t@ == texto@,
        },
        r is Ok <==> segundos_lidos(texto@) is Some,
{
    let cs = caracteres(texto);
    let (i, j) = limites_aparados(&cs);
    if i == j {
        proof {
            lemma_vazio_nao_e_numero();
        }
        return Err(ErroDuracao::Vazia);
    }
    match ler_segundos(texto) {
        Some(x) => Ok(Duracao::de_real(x).unwrap()),
        None => Err(ErroDuracao::Invalida { texto: texto.to_owned() }),
    }
}

/// O texto vazio não é um número.
proof fn lemma_vazio_nao_e_numero()
    ensures
        forall|s: Seq<char>| #[trigger] aparado(s).len() == 0 ==> segundos_lidos(s) is None,
{
    reveal_strlit("inf");
    reveal_strlit("infinity");
    reveal_strlit("nan");
    assert forall|s: Seq<char>| #[trigger] aparado(s).len() == 0 implies segundos_lidos(s) is None by {
        let t = aparado(s);
        assert(t =~= Seq::empty());
        assert(aparado(t) =~= t);
        assert(crate::leitura::minusculas(t).len() == 0);
        assert(t.take(0) + Seq::<char>::empty() =~= t);
        assert(lido(t) is None);
    }
}

} // verus!
