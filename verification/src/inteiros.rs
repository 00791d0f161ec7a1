//! Leitura de inteiros decimais.

use vstd::prelude::*;
use vstd::string::*;

use crate::decimal::{algarismo, digitos, lemma_digitos_sao_algarismos};
use crate::leitura::{eh_algarismo, natural_de, sem_sinal_inicial};
use crate::texto::caracteres;

verus! {

/// Se há algarismos, e só algarismos.
pub open spec fn so_algarismos(s: Seq<char>) -> bool {
    s.len() > 0 && forall|i: int| 0 <= i < s.len() ==> eh_algarismo(#[trigger] s[i])
}

/// O inteiro escrito por algarismos com sinal opcional.
pub open spec fn inteiro_escrito(s: Seq<char>) -> Option<int> {
    let (negativo, t) = sem_sinal_inicial(s);
    if !so_algarismos(t) {
        None
    } else if negativo {
        Some(-(natural_de(t) as int))
    } else {
        Some(natural_de(t) as int)
    }
}

/// O inteiro escrito, se está entre `menor` e `maior`.
pub open spec fn inteiro_entre(s: Seq<char>, menor: int, maior: int) -> Option<int> {
    match inteiro_escrito(s) {
        Some(n) => if menor <= n <= maior {
            Some(n)
        } else {
            None
        },
        None => None,
    }
}

/// O numeral de um número é lido como esse número.
pub proof fn lei_numeral_lido(n: nat)
    ensures
        so_algarismos(digitos(n)),
        natural_de(digitos(n)) == n,
        inteiro_escrito(digitos(n)) == Some(n as int),
    decreases n,
{
    lemma_digitos_sao_algarismos(n);
    let d = digitos(n);
    if n < 10 {
        assert(d.drop_last() =~= Seq::<char>::empty());
        assert(natural_de(d.drop_last()) == 0);
        assert(d.last() == algarismo(n));
    } else {
        lei_numeral_lido(n / 10);
        assert(d.drop_last() =~= digitos(n / 10));
        assert(d.last() == algarismo(n % 10));
    }
    assert(eh_algarismo(d[0]));
}

/// Números diferentes têm numerais diferentes.
pub proof fn lei_numerais_distintos(a: nat, b: nat)
    requires
        a != b,
    ensures
        digitos(a) != digitos(b),
{
    lei_numeral_lido(a);
    lei_numeral_lido(b);
}

proof fn lemma_natural_cresce(s: Seq<char>, k: int)
    requires
        0 <= k <= s.len(),
    ensures
        natural_de(s.take(k)) <= natural_de(s),
    decreases s.len() - k,
{
    if k < s.len() {
        lemma_natural_cresce(s, k + 1);
        assert(s.take(k + 1).drop_last() =~= s.take(k));
    } else {
        assert(s.take(k) =~= s);
    }
}

const MAIOR_MODULO: u128 = 0x8000_0000_0000_0000_0000_0000_0000_0000;

/// O natural escrito pelos algarismos de `de` em diante, se não passa de 2^127.
fn ler_modulo(cs: &Vec<char>, de: usize) -> (r: Option<u128>)
    requires
        de <= cs@.len(),
    ensures
        match r {
            Some(n) => so_algarismos(cs@.skip(de as int)) && n == natural_de(cs@.skip(de as int))
                && n <= MAIOR_MODULO,
            None => so_algarismos(cs@.skip(de as int)) ==> natural_de(cs@.skip(de as int))
                > MAIOR_MODULO,
        },
{
    let ghost t = cs@.skip(de as int);
    let total: usize = cs.len();
    if de == total {
        return None;
    }
    let mut n: u128 = 0;
    let mut i: usize = de;
    while i < total
        invariant
            de <= i <= total,
            total == cs@.len(),
            t == cs@.skip(de as int),
            forall|j: int| 0 <= j < i - de ==> eh_algarismo(#[trigger] t[j]),
            n == natural_de(t.take(i - de)),
            n <= MAIOR_MODULO,
        decreases total - i,
    {
        let c = cs[i];
        proof {
            assert(t[i - de] == c);
            assert(t.take(i - de + 1).drop_last() =~= t.take(i - de));
            assert(t.take(i - de + 1).last() == c);
            if so_algarismos(t) {
                lemma_natural_cresce(t, i - de + 1);
            }
        }
        if c < '0' || c > '9' {
            return None;
        }
        let d: u128 = c as u128 - 48;
        if n > MAIOR_MODULO / 10 {
            return None;
        }
        n = 10 * n + d;
        if n > MAIOR_MODULO {
            return None;
        }
        i = i + 1;
    }
    proof {
        assert(t.take(t.len() as int) =~= t);
    }
    Some(n)
}

/// Lê um inteiro de 128 bits.
pub fn ler_i128(s: &str) -> (r: Option<i128>)
    ensures
        match r {
            Some(n) => inteiro_entre(s@, i128::MIN as int, i128::MAX as int) == Some(n as int),
            None => inteiro_entre(s@, i128::MIN as int, i128::MAX as int) is None,
        },
{
    let cs = caracteres(s);
    let com_sinal = cs.len() > 0 && (cs[0] == '-' || cs[0] == '+');
    let negativo = com_sinal && cs[0] == '-';
    let de: usize = if com_sinal {
        1
    } else {
        0
    };
    proof {
        assert(cs@.skip(0) =~= cs@);
    }
    match ler_modulo(&cs, de) {
        None => None,
        Some(n) => if negativo {
            if n == MAIOR_MODULO {
                Some(i128::MIN)
            } else {
                Some(-(n as i128))
            }
        } else if n == MAIOR_MODULO {
            None
        } else {
            Some(n as i128)
        },
    }
}

/// Lê um inteiro de 64 bits.
pub fn ler_i64(s: &str) -> (r: Option<i64>)
    ensures
        match r {
            Some(n) => inteiro_entre(s@, i64::MIN as int, i64::MAX as int) == Some(n as int),
            None => inteiro_entre(s@, i64::MIN as int, i64::MAX as int) is None,
        },
{
    match ler_i128(s) {
        Some(n) => if n >= i64::MIN as i128 && n <= i64::MAX as i128 {
            Some(n as i64)
        } else {
            None
        },
        None => None,
    }
}

} // verus!
