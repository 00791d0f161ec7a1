//! Leitura dos logs dos receptores e agregação das métricas.
//!
//! Cada linha gravada por um receptor tem a forma:
//! `2026-09-16T12:00:00.124312-03:00 g=A s=4211 t=1758024000123456789 AAAA...`

use vstd::multiset::Multiset;
use vstd::prelude::*;
use vstd::string::*;

use crate::config::{nome_do_receptor, nome_receptor};
use crate::inteiros::{inteiro_entre, ler_i128};
use crate::json::{
    ler_natural, ler_numero, ler_objeto, ler_texto, membros, natural_do_membro, numero_do_membro,
    objeto_lido, texto_do_membro, Escalar, EscalarVisto,
};
use crate::latencias::{maximo, percentil, registradas, Latencias, LATENCIA_MAXIMA_US};
use crate::tabela::{
    contado, contagem, inserido, lei_inserido_ordenada, lei_obtido_inserido, lei_soma_inserido,
    lemma_contagem_ate_soma, obtido, ordenada, soma, Tabela,
};
use crate::texto::{
    aparado, ate, caracteres, comeca, comeca_em, contem, contem_trecho, eh_espaco_ascii,
    espaco_ascii, fatia, iguais, limites_aparados, procurar, trecho,
};

verus! {

// ---- Campos de medição ----

/// Quantos caracteres há antes do primeiro espaço ASCII.
pub open spec fn ate_o_espaco(s: Seq<char>) -> nat
    decreases s.len(),
{
    if s.len() == 0 || espaco_ascii(s[0]) {
        0
    } else {
        1 + ate_o_espaco(s.skip(1))
    }
}

/// A primeira palavra não passa do texto.
pub proof fn lemma_ate_o_espaco(s: Seq<char>)
    ensures
        ate_o_espaco(s) <= s.len(),
    decreases s.len(),
{
    if s.len() > 0 && !espaco_ascii(s[0]) {
        lemma_ate_o_espaco(s.skip(1));
    }
}

/// As palavras de um texto, separadas por espaços ASCII.
pub open spec fn palavras(s: Seq<char>) -> Seq<Seq<char>>
    decreases s.len(),
{
    if s.len() == 0 {
        Seq::empty()
    } else if espaco_ascii(s[0]) {
        palavras(s.skip(1))
    } else {
        proof {
            lemma_ate_o_espaco(s);
        }
        seq![s.take(ate_o_espaco(s) as int)] + palavras(s.skip(ate_o_espaco(s) as int))
    }
}

/// O gerador e o instante de envio, em nanossegundos, já encontrados.
pub open spec fn achados(
    palavra: Seq<char>,
    gerador: Option<Seq<char>>,
    envio: Option<int>,
) -> (Option<Seq<char>>, Option<int>) {
    if palavra.len() >= 2 && palavra[0] == 'g' && palavra[1] == '=' {
        (Some(palavra.skip(2)), envio)
    } else if palavra.len() >= 2 && palavra[0] == 't' && palavra[1] == '=' {
        (gerador, inteiro_entre(palavra.skip(2), i128::MIN as int, i128::MAX as int))
    } else {
        (gerador, envio)
    }
}

/// O gerador e o instante de envio que as palavras trazem: vale a última de cada campo até que os
/// dois sejam conhecidos.
pub open spec fn procurados(
    ps: Seq<Seq<char>>,
    gerador: Option<Seq<char>>,
    envio: Option<int>,
) -> Option<(Seq<char>, int)>
    decreases ps.len(),
{
    if gerador is Some && envio is Some {
        Some((gerador->0, envio->0))
    } else if ps.len() == 0 {
        None
    } else {
        let (g, t) = achados(ps[0], gerador, envio);
        procurados(ps.skip(1), g, t)
    }
}

/// O gerador e o instante de envio que o corpo de uma mensagem traz.
pub open spec fn extraidos(corpo: Seq<char>) -> Option<(Seq<char>, int)> {
    procurados(palavras(corpo), None, None)
}

/// Os campos de medição de uma mensagem.
pub struct Campos {
    pub gerador: String,
    pub envio_ns: i128,
}

spec fn texto_de(o: Option<String>) -> Option<Seq<char>> {
    match o {
        Some(s) => Some(s@),
        None => None,
    }
}

spec fn inteiro_de(o: Option<i128>) -> Option<int> {
    match o {
        Some(n) => Some(n as int),
        None => None,
    }
}

/// Extrai do corpo o nome do gerador e o instante de envio.
pub fn extrair(corpo: &str) -> (r: Option<Campos>)
    ensures
        match r {
            Some(c) => extraidos(corpo@) == Some((c.gerador@, c.envio_ns as int)),
            None => extraidos(corpo@) is None,
        },
{
    let cs = caracteres(corpo);
    let total: usize = cs.len();
    let mut gerador: Option<String> = None;
    let mut envio: Option<i128> = None;
    let mut i: usize = 0;
    proof {
        assert(cs@.skip(0) =~= cs@);
    }
    while i < total
        invariant
            i <= total,
            total == cs@.len(),
            cs@ == corpo@,
            gerador is None || envio is None,
            procurados(palavras(cs@.skip(i as int)), texto_de(gerador), inteiro_de(envio))
                == extraidos(corpo@),
        decreases total - i,
    {
        if eh_espaco_ascii(cs[i]) {
            proof {
                assert(cs@.skip(i as int)[0] == cs@[i as int]);
                assert(cs@.skip(i as int).skip(1) =~= cs@.skip(i + 1));
            }
            i = i + 1;
        } else {
            let fim = fim_da_palavra(&cs, i);
            let ghost resto = cs@.skip(i as int);
            let ghost palavra = cs@.subrange(i as int, fim as int);
            let ghost g0 = texto_de(gerador);
            let ghost t0 = inteiro_de(envio);
            proof {
                assert(resto[0] == cs@[i as int]);
                assert(resto.take(fim - i) =~= palavra);
                assert(resto.skip(fim - i) =~= cs@.skip(fim as int));
                let ps = palavras(resto);
                assert(ps[0] == palavra);
                assert(ps.skip(1) =~= palavras(cs@.skip(fim as int)));
            }
            if fim - i >= 2 && cs[i] == 'g' && cs[i + 1] == '=' {
                gerador = Some(trecho(&cs, i + 2, fim));
                proof {
                    assert(palavra.skip(2) =~= cs@.subrange(i + 2, fim as int));
                }
            } else if fim - i >= 2 && cs[i] == 't' && cs[i + 1] == '=' {
                envio = ler_i128(trecho(&cs, i + 2, fim).as_str());
                proof {
                    assert(palavra.skip(2) =~= cs@.subrange(i + 2, fim as int));
                }
            }
            proof {
                assert(achados(palavra, g0, t0) == (texto_de(gerador), inteiro_de(envio)));
            }
            i = fim;
            if gerador.is_some() && envio.is_some() {
                return Some(Campos { gerador: gerador.unwrap(), envio_ns: envio.unwrap() });
            }
        }
    }
    None
}

fn fim_da_palavra(cs: &Vec<char>, de: usize) -> (r: usize)
    requires
        de < cs@.len(),
        !espaco_ascii(cs@[de as int]),
    ensures
        de < r <= cs@.len(),
        r - de == ate_o_espaco(cs@.skip(de as int)),
{
    let total: usize = cs.len();
    let mut i: usize = de;
    while i < total && !eh_espaco_ascii(cs[i])
        invariant
            de <= i <= total,
            total == cs@.len(),
            ate_o_espaco(cs@.skip(de as int)) == (i - de) + ate_o_espaco(cs@.skip(i as int)),
        decreases total - i,
    {
        proof {
            assert(cs@.skip(i as int)[0] == cs@[i as int]);
            assert(cs@.skip(i as int).skip(1) =~= cs@.skip(i + 1));
        }
        i = i + 1;
    }
    proof {
        if i < total {
            assert(cs@.skip(i as int)[0] == cs@[i as int]);
        }
        assert(cs@.skip(de as int)[0] == cs@[de as int]);
    }
    i
}

// ---- Classificação das linhas ----

/// O instante que um carimbo RFC 3339 marca, em nanossegundos desde 1970: `None` se o texto não é
/// um carimbo, `Some(None)` se o instante não cabe em 64 bits.
pub uninterp spec fn carimbo_lido(s: Seq<char>) -> Option<Option<i64>>;

/// `chrono::DateTime::parse_from_rfc3339`, com o resultado em nanossegundos pelo
/// `timestamp_nanos_opt` da mesma data: depende só do texto.
#[verifier::external_body]
fn ler_carimbo(s: &str) -> (r: Option<Option<i64>>)
    ensures
        r == carimbo_lido(s@),
{
    match chrono::DateTime::parse_from_rfc3339(s) {
        Ok(d) => Some(d.timestamp_nanos_opt()),
        Err(_) => None,
    }
}

/// O que uma linha do log de um receptor representa.
pub enum Classe {
    /// Só espaços: não conta.
    Vazia,
    /// Não pôde ser interpretada.
    Invalida,
    /// Enviada antes do fim do aquecimento do seu gerador.
    Aquecimento,
    /// Recebida; a latência, em microssegundos, falta quando seria negativa.
    Recebida { gerador: String, latencia_us: Option<u64> },
}

pub enum ClasseVista {
    Vazia,
    Invalida,
    Aquecimento,
    Recebida { gerador: Seq<char>, latencia_us: Option<u64> },
}

impl View for Classe {
    type V = ClasseVista;

    open spec fn view(&self) -> ClasseVista {
        match *self {
            Classe::Vazia => ClasseVista::Vazia,
            Classe::Invalida => ClasseVista::Invalida,
            Classe::Aquecimento => ClasseVista::Aquecimento,
            Classe::Recebida { gerador, latencia_us } => ClasseVista::Recebida {
                gerador: gerador@,
                latencia_us,
            },
        }
    }
}

/// A latência em microssegundos, de um deles a 60 s, ou `None` se for negativa. A diferença é circular em
/// 128 bits.
pub open spec fn latencia(recebido: i64, envio: i128) -> Option<u64> {
    let ns = (recebido as i128).wrapping_sub(envio);
    let us = ns as int / 1000;
    if ns < 0 {
        None
    } else if us < 1 {
        Some(1)
    } else if us > LATENCIA_MAXIMA_US {
        Some(LATENCIA_MAXIMA_US)
    } else {
        Some(us as u64)
    }
}

/// A latência em microssegundos entre o envio e o recebimento.
pub fn calcular_latencia(recebido: i64, envio: i128) -> (r: Option<u64>)
    ensures
        r == latencia(recebido, envio),
{
    let ns: i128 = (recebido as i128).wrapping_sub(envio);
    if ns < 0 {
        return None;
    }
    let us: i128 = ns / 1000;
    if us < 1 {
        Some(1)
    } else if us > LATENCIA_MAXIMA_US as i128 {
        Some(LATENCIA_MAXIMA_US)
    } else {
        Some(us as u64)
    }
}

/// A classe de uma mensagem com esse carimbo e esse corpo.
pub open spec fn classe_do_corpo(
    recebido: Option<Option<i64>>,
    corpo: Seq<char>,
    inicio: Seq<(Seq<char>, i128)>,
) -> ClasseVista {
    match (recebido, extraidos(corpo)) {
        (Some(Some(ns)), Some((gerador, envio))) => {
            let limite = obtido(inicio, gerador);
            if limite is Some && envio < limite->0 {
                ClasseVista::Aquecimento
            } else {
                ClasseVista::Recebida { gerador, latencia_us: latencia(ns, envio as i128) }
            }
        },
        _ => ClasseVista::Invalida,
    }
}

/// Se a latência, quando há, cabe no histograma.
pub open spec fn registravel(k: ClasseVista) -> bool {
    k is Recebida && k->latencia_us is Some ==> 1 <= k->latencia_us->0 <= LATENCIA_MAXIMA_US
}

/// A classe de uma linha: um carimbo, um espaço e o corpo, sem contar os espaços em volta.
pub open spec fn classe_da_linha(linha: Seq<char>, inicio: Seq<(Seq<char>, i128)>) -> ClasseVista {
    let l = aparado(linha);
    let k = ate(l, ' ') as int;
    if l.len() == 0 {
        ClasseVista::Vazia
    } else if k == l.len() {
        ClasseVista::Invalida
    } else {
        classe_do_corpo(carimbo_lido(l.take(k)), l.skip(k + 1), inicio)
    }
}

/// Classifica uma mensagem pelo instante que o seu carimbo marca e pelo seu corpo.
///
/// `inicio` dá o fim do aquecimento de cada gerador.
pub fn classificar_corpo(recebido: Option<Option<i64>>, corpo: &str, inicio: &Tabela<i128>) -> (r:
    Classe)
    ensures
        r@ == classe_do_corpo(recebido, corpo@, inicio@),
{
    let ns: i64 = match recebido {
        Some(Some(ns)) => ns,
        _ => {
            return Classe::Invalida;
        },
    };
    match extrair(corpo) {
        None => Classe::Invalida,
        Some(campos) => {
            if let Some(limite) = inicio.obter(campos.gerador.as_str()) {
                if campos.envio_ns < limite {
                    return Classe::Aquecimento;
                }
            }
            Classe::Recebida {
                gerador: campos.gerador,
                latencia_us: calcular_latencia(ns, campos.envio_ns),
            }
        },
    }
}

/// Classifica uma linha do log de um receptor.
pub fn classificar(linha: &str, inicio: &Tabela<i128>) -> (r: Classe)
    ensures
        r@ == classe_da_linha(linha@, inicio@),
{
    let todos = caracteres(linha);
    let (de, ate) = limites_aparados(&todos);
    let cs = fatia(&todos, de, ate);
    if cs.len() == 0 {
        return Classe::Vazia;
    }
    let k = procurar(&cs, 0, ' ');
    proof {
        assert(cs@.skip(0) =~= cs@);
        assert(cs@.subrange(0, k as int) =~= cs@.take(k as int));
    }
    if k == cs.len() {
        return Classe::Invalida;
    }
    proof {
        assert(cs@.subrange(k + 1, cs@.len() as int) =~= cs@.skip(k + 1));
    }
    let carimbo = trecho(&cs, 0, k);
    let corpo = trecho(&cs, k + 1, cs.len());
    classificar_corpo(ler_carimbo(carimbo.as_str()), corpo.as_str(), inicio)
}

// ---- Agregação ----

/// Quantas das classes são de mensagens recebidas.
pub open spec fn recebidas(ks: Seq<ClasseVista>) -> nat
    decreases ks.len(),
{
    if ks.len() == 0 {
        0
    } else {
        recebidas(ks.drop_last()) + if ks.last() is Recebida {
            1nat
        } else {
            0
        }
    }
}

/// Quantas das classes são de mensagens recebidas do gerador.
pub open spec fn recebidas_de(ks: Seq<ClasseVista>, gerador: Seq<char>) -> nat
    decreases ks.len(),
{
    if ks.len() == 0 {
        0
    } else {
        recebidas_de(ks.drop_last(), gerador) + if ks.last() is Recebida && ks.last()->gerador
            == gerador {
            1nat
        } else {
            0
        }
    }
}

/// Quantas das classes são de mensagens do aquecimento.
pub open spec fn do_aquecimento(ks: Seq<ClasseVista>) -> nat
    decreases ks.len(),
{
    if ks.len() == 0 {
        0
    } else {
        do_aquecimento(ks.drop_last()) + if ks.last() is Aquecimento {
            1nat
        } else {
            0
        }
    }
}

/// Quantas das classes são de linhas ilegíveis.
pub open spec fn invalidas(ks: Seq<ClasseVista>) -> nat
    decreases ks.len(),
{
    if ks.len() == 0 {
        0
    } else {
        invalidas(ks.drop_last()) + if ks.last() is Invalida {
            1nat
        } else {
            0
        }
    }
}

/// Quantas das classes são de linhas vazias.
pub open spec fn vazias(ks: Seq<ClasseVista>) -> nat
    decreases ks.len(),
{
    if ks.len() == 0 {
        0
    } else {
        vazias(ks.drop_last()) + if ks.last() is Vazia {
            1nat
        } else {
            0
        }
    }
}

/// Quantas das mensagens recebidas teriam latência negativa.
pub open spec fn anomalias(ks: Seq<ClasseVista>) -> nat
    decreases ks.len(),
{
    if ks.len() == 0 {
        0
    } else {
        anomalias(ks.drop_last()) + if ks.last() is Recebida && ks.last()->latencia_us is None {
            1nat
        } else {
            0
        }
    }
}

/// A tabela de contadores por gerador depois dessas classes.
pub open spec fn por_gerador(
    t: Seq<(Seq<char>, u64)>,
    ks: Seq<ClasseVista>,
) -> Seq<(Seq<char>, u64)>
    decreases ks.len(),
{
    if ks.len() == 0 {
        t
    } else {
        let antes = por_gerador(t, ks.drop_last());
        if ks.last() is Recebida {
            contado(antes, ks.last()->gerador)
        } else {
            antes
        }
    }
}

/// As latências registradas depois dessas classes.
pub open spec fn latencias(m: Multiset<u64>, ks: Seq<ClasseVista>) -> Multiset<u64>
    decreases ks.len(),
{
    if ks.len() == 0 {
        m
    } else {
        let antes = latencias(m, ks.drop_last());
        if ks.last() is Recebida && ks.last()->latencia_us is Some {
            antes.insert(ks.last()->latencia_us->0)
        } else {
            antes
        }
    }
}

/// As métricas de um receptor.
pub struct EstatReceptor {
    pub nome: String,
    pub recebidas: u64,
    pub por_gerador: Tabela<u64>,
    pub latencia: Latencias,
}

/// Uma origem e o relay que encaminhou as suas mensagens.
pub struct Origem {
    pub origem: String,
    pub relay: String,
    pub mensagens: u64,
}

/// As métricas de todos os receptores.
pub struct Agregado {
    pub receptores: Vec<EstatReceptor>,
    pub total_recebidas: u64,
    pub recebidas_por_gerador: Tabela<u64>,
    /// Mensagens descartadas por caírem na janela de aquecimento.
    pub descartadas_aquecimento: u64,
    /// Linhas que não puderam ser interpretadas.
    pub linhas_invalidas: u64,
    /// Latências negativas — indicam relógio inconsistente, não devem ocorrer.
    pub anomalias_relogio: u64,
    /// A cadeia de cada mensagem, da origem ao relay.
    pub origens: Vec<Origem>,
}

impl EstatReceptor {
    /// Os contadores por gerador somam o total, e nenhuma latência é de mensagem não recebida.
    pub open spec fn valida(self) -> bool {
        &&& ordenada(self.por_gerador@)
        &&& soma(self.por_gerador@) == self.recebidas
        &&& registradas(self.latencia).len() <= self.recebidas
    }

    /// Um receptor que ainda não recebeu nada.
    pub fn novo(nome: String) -> (r: EstatReceptor)
        ensures
            r.nome == nome,
            r.recebidas == 0,
            r.por_gerador@ == Seq::<(Seq<char>, u64)>::empty(),
            registradas(r.latencia) == Multiset::<u64>::empty(),
            r.valida(),
    {
        EstatReceptor { nome, recebidas: 0, por_gerador: Tabela::nova(), latencia: Latencias::nova() }
    }

    /// O percentil `p` das latências, em microssegundos.
    pub fn percentil_us(&self, p: u8) -> (r: u64)
        ensures
            r == percentil(registradas(self.latencia), p),
    {
        self.latencia.no_percentil(p)
    }

    /// A maior latência, em microssegundos.
    pub fn maximo_us(&self) -> (r: u64)
        ensures
            r == maximo(registradas(self.latencia)),
    {
        self.latencia.maior()
    }

    /// O receptor depois de linhas dessas classes.
    pub open spec fn apos(self, antes: EstatReceptor, ks: Seq<ClasseVista>) -> bool {
        &&& self.nome == antes.nome
        &&& self.recebidas == antes.recebidas + recebidas(ks)
        &&& self.por_gerador@ == por_gerador(antes.por_gerador@, ks)
        &&& registradas(self.latencia) == latencias(registradas(antes.latencia), ks)
    }

    fn registrar(&mut self, classe: &Classe)
        requires
            old(self).valida(),
            old(self).recebidas < u64::MAX,
            registravel(classe@),
        ensures
            final(self).valida(),
            final(self).apos(*old(self), seq![classe@]),
    {
        let ghost ks = seq![classe@];
        proof {
            lemma_uma_classe(classe@, self.por_gerador@, registradas(self.latencia));
        }
        if let Classe::Recebida { gerador, latencia_us } = classe {
            if let Some(us) = latencia_us {
                let _ = self.latencia.registrar(*us);
            }
            proof {
                lemma_contado(self.por_gerador@, gerador@);
            }
            self.recebidas = self.recebidas + 1;
            self.por_gerador.contar(gerador.as_str());
        }
    }
}

/// Cada classe sozinha.
proof fn lemma_uma_classe(k: ClasseVista, t: Seq<(Seq<char>, u64)>, m: Multiset<u64>)
    ensures
        recebidas(seq![k]) == if k is Recebida {
            1nat
        } else {
            0
        },
        do_aquecimento(seq![k]) == if k is Aquecimento {
            1nat
        } else {
            0
        },
        invalidas(seq![k]) == if k is Invalida {
            1nat
        } else {
            0
        },
        anomalias(seq![k]) == if k is Recebida && k->latencia_us is None {
            1nat
        } else {
            0
        },
        por_gerador(t, seq![k]) == if k is Recebida {
            contado(t, k->gerador)
        } else {
            t
        },
        latencias(m, seq![k]) == if k is Recebida && k->latencia_us is Some {
            m.insert(k->latencia_us->0)
        } else {
            m
        },
{
    reveal_with_fuel(recebidas, 2);
    reveal_with_fuel(do_aquecimento, 2);
    reveal_with_fuel(invalidas, 2);
    reveal_with_fuel(anomalias, 2);
    reveal_with_fuel(por_gerador, 2);
    reveal_with_fuel(latencias, 2);
    assert(seq![k].drop_last() =~= Seq::<ClasseVista>::empty());
    assert(seq![k].last() == k);
}

/// Contar conserva a ordem e soma um.
proof fn lemma_contado(t: Seq<(Seq<char>, u64)>, chave: Seq<char>)
    requires
        ordenada(t),
        soma(t) < u64::MAX,
    ensures
        contagem(t, chave) < u64::MAX,
        ordenada(contado(t, chave)),
        soma(contado(t, chave)) == soma(t) + 1,
{
    lemma_contagem_ate_soma(t, chave);
    lei_inserido_ordenada(t, chave, (contagem(t, chave) + 1) as u64);
    lei_soma_inserido(t, chave, (contagem(t, chave) + 1) as u64);
}

/// A classe do que se leu de uma linha: o texto, ou nada quando a leitura falhou.
pub open spec fn classe_da_leitura(
    leitura: Option<String>,
    inicio: Seq<(Seq<char>, i128)>,
) -> ClasseVista {
    match leitura {
        Some(linha) => classe_da_linha(linha@, inicio),
        None => ClasseVista::Invalida,
    }
}

/// As classes das linhas de um log, na ordem.
pub open spec fn classes(
    linhas: Seq<Option<String>>,
    inicio: Seq<(Seq<char>, i128)>,
) -> Seq<ClasseVista> {
    Seq::new(linhas.len(), |i: int| classe_da_leitura(linhas[i], inicio))
}

/// Se todos os contadores podem subir de `n`.
pub open spec fn ha_espaco(ag: Agregado, est: EstatReceptor, n: int) -> bool {
    &&& ag.total_recebidas + n <= u64::MAX
    &&& ag.descartadas_aquecimento + n <= u64::MAX
    &&& ag.linhas_invalidas + n <= u64::MAX
    &&& ag.anomalias_relogio + n <= u64::MAX
    &&& est.recebidas + n <= u64::MAX
}

impl Agregado {
    /// Os contadores por gerador somam o total.
    pub open spec fn valida(self) -> bool {
        &&& ordenada(self.recebidas_por_gerador@)
        &&& soma(self.recebidas_por_gerador@) == self.total_recebidas
    }

    /// Nada recebido ainda.
    pub fn novo() -> (r: Agregado)
        ensures
            r.valida(),
            r.receptores@.len() == 0,
            r.total_recebidas == 0,
            r.recebidas_por_gerador@ == Seq::<(Seq<char>, u64)>::empty(),
            r.descartadas_aquecimento == 0,
            r.linhas_invalidas == 0,
            r.anomalias_relogio == 0,
            r.origens@.len() == 0,
    {
        Agregado {
            receptores: Vec::new(),
            total_recebidas: 0,
            recebidas_por_gerador: Tabela::nova(),
            descartadas_aquecimento: 0,
            linhas_invalidas: 0,
            anomalias_relogio: 0,
            origens: Vec::new(),
        }
    }

    /// O agregado depois de linhas dessas classes.
    pub open spec fn apos(self, antes: Agregado, ks: Seq<ClasseVista>) -> bool {
        &&& self.receptores == antes.receptores
        &&& self.origens == antes.origens
        &&& self.total_recebidas == antes.total_recebidas + recebidas(ks)
        &&& self.recebidas_por_gerador@ == por_gerador(antes.recebidas_por_gerador@, ks)
        &&& self.descartadas_aquecimento == antes.descartadas_aquecimento + do_aquecimento(ks)
        &&& self.linhas_invalidas == antes.linhas_invalidas + invalidas(ks)
        &&& self.anomalias_relogio == antes.anomalias_relogio + anomalias(ks)
    }

    /// Contabiliza uma linha do receptor.
    pub fn registrar(&mut self, est: &mut EstatReceptor, classe: &Classe)
        requires
            old(self).valida(),
            old(est).valida(),
            ha_espaco(*old(self), *old(est), 1),
            registravel(classe@),
        ensures
            final(self).valida(),
            final(est).valida(),
            final(self).apos(*old(self), seq![classe@]),
            final(est).apos(*old(est), seq![classe@]),
    {
        proof {
            lemma_uma_classe(
                classe@,
                self.recebidas_por_gerador@,
                registradas(est.latencia),
            );
        }
        est.registrar(classe);
        match classe {
            Classe::Vazia => {},
            Classe::Invalida => {
                self.linhas_invalidas = self.linhas_invalidas + 1;
            },
            Classe::Aquecimento => {
                self.descartadas_aquecimento = self.descartadas_aquecimento + 1;
            },
            Classe::Recebida { gerador, latencia_us } => {
                if latencia_us.is_none() {
                    self.anomalias_relogio = self.anomalias_relogio + 1;
                }
                proof {
                    lemma_contado(self.recebidas_por_gerador@, gerador@);
                }
                self.total_recebidas = self.total_recebidas + 1;
                self.recebidas_por_gerador.contar(gerador.as_str());
            },
        }
    }

    /// Contabiliza linhas do log do receptor: o texto de cada uma, ou nada quando a leitura falhou.
    ///
    /// `inicio` dá o fim do aquecimento de cada gerador; mensagens anteriores a isso são
    /// descartadas.
    pub fn absorver(
        &mut self,
        est: &mut EstatReceptor,
        linhas: &Vec<Option<String>>,
        inicio: &Tabela<i128>,
    )
        requires
            old(self).valida(),
            old(est).valida(),
            ha_espaco(*old(self), *old(est), linhas@.len() as int),
        ensures
            final(self).valida(),
            final(est).valida(),
            final(self).apos(*old(self), classes(linhas@, inicio@)),
            final(est).apos(*old(est), classes(linhas@, inicio@)),
    {
        let ghost ag0 = *self;
        let ghost est0 = *est;
        let ghost ks = classes(linhas@, inicio@);
        let mut i: usize = 0;
        while i < linhas.len()
            invariant
                i <= linhas@.len(),
                self.valida(),
                est.valida(),
                ks == classes(linhas@, inicio@),
                self.apos(ag0, ks.take(i as int)),
                est.apos(est0, ks.take(i as int)),
                ha_espaco(ag0, est0, linhas@.len() as int),
            decreases linhas@.len() - i,
        {
            let classe = match &linhas[i] {
                Some(linha) => classificar(linha.as_str(), inicio),
                None => Classe::Invalida,
            };
            proof {
                assert(classe@ == ks[i as int]);
                lei_cada_linha_uma_vez(ks.take(i as int));
                lemma_mais_uma_classe(
                    ks,
                    i as int,
                    ag0.recebidas_por_gerador@,
                    est0.por_gerador@,
                    registradas(est0.latencia),
                );
                lemma_uma_classe(
                    ks[i as int],
                    self.recebidas_por_gerador@,
                    registradas(est.latencia),
                );
                lemma_uma_classe(ks[i as int], est.por_gerador@, registradas(est.latencia));
            }
            self.registrar(est, &classe);
            i = i + 1;
        }
        proof {
            assert(ks.take(ks.len() as int) =~= ks);
        }
    }
}

/// As contas de um prefixo com uma classe a mais.
proof fn lemma_mais_uma_classe(
    ks: Seq<ClasseVista>,
    i: int,
    t: Seq<(Seq<char>, u64)>,
    u: Seq<(Seq<char>, u64)>,
    m: Multiset<u64>,
)
    requires
        0 <= i < ks.len(),
    ensures
        recebidas(ks.take(i + 1)) == recebidas(ks.take(i)) + recebidas(seq![ks[i]]),
        do_aquecimento(ks.take(i + 1)) == do_aquecimento(ks.take(i)) + do_aquecimento(seq![ks[i]]),
        invalidas(ks.take(i + 1)) == invalidas(ks.take(i)) + invalidas(seq![ks[i]]),
        anomalias(ks.take(i + 1)) == anomalias(ks.take(i)) + anomalias(seq![ks[i]]),
        por_gerador(t, ks.take(i + 1)) == por_gerador(por_gerador(t, ks.take(i)), seq![ks[i]]),
        por_gerador(u, ks.take(i + 1)) == por_gerador(por_gerador(u, ks.take(i)), seq![ks[i]]),
        latencias(m, ks.take(i + 1)) == latencias(latencias(m, ks.take(i)), seq![ks[i]]),
{
    assert(ks.take(i + 1).drop_last() =~= ks.take(i));
    assert(ks.take(i + 1).last() == ks[i]);
    lemma_uma_classe(ks[i], por_gerador(t, ks.take(i)), latencias(m, ks.take(i)));
    lemma_uma_classe(ks[i], por_gerador(u, ks.take(i)), latencias(m, ks.take(i)));
}

/// Cada linha conta exatamente uma vez: como vazia, ilegível, do aquecimento ou recebida; e as
/// anomalias são das recebidas.
pub proof fn lei_cada_linha_uma_vez(ks: Seq<ClasseVista>)
    ensures
        vazias(ks) + invalidas(ks) + do_aquecimento(ks) + recebidas(ks) == ks.len(),
        anomalias(ks) <= recebidas(ks),
    decreases ks.len(),
{
    if ks.len() > 0 {
        lei_cada_linha_uma_vez(ks.drop_last());
    }
}

/// Contabilizar um log em partes dá o mesmo que de uma vez.
pub proof fn lei_partes_do_log(
    a: Seq<ClasseVista>,
    b: Seq<ClasseVista>,
    t: Seq<(Seq<char>, u64)>,
    m: Multiset<u64>,
)
    ensures
        recebidas(a + b) == recebidas(a) + recebidas(b),
        do_aquecimento(a + b) == do_aquecimento(a) + do_aquecimento(b),
        invalidas(a + b) == invalidas(a) + invalidas(b),
        vazias(a + b) == vazias(a) + vazias(b),
        anomalias(a + b) == anomalias(a) + anomalias(b),
        por_gerador(t, a + b) == por_gerador(por_gerador(t, a), b),
        latencias(m, a + b) == latencias(latencias(m, a), b),
    decreases b.len(),
{
    if b.len() == 0 {
        assert(a + b =~= a);
    } else {
        lei_partes_do_log(a, b.drop_last(), t, m);
        assert((a + b).drop_last() =~= a + b.drop_last());
        assert((a + b).last() == b.last());
    }
}

/// Cada mensagem recebida deixa uma latência ou conta como anomalia.
pub proof fn lei_uma_latencia_por_mensagem(ks: Seq<ClasseVista>)
    ensures
        latencias(Multiset::empty(), ks).len() + anomalias(ks) == recebidas(ks),
    decreases ks.len(),
{
    if ks.len() > 0 {
        lei_uma_latencia_por_mensagem(ks.drop_last());
    }
}

/// O contador de cada gerador é o número de mensagens recebidas dele.
pub proof fn lei_contador_do_gerador(ks: Seq<ClasseVista>, gerador: Seq<char>)
    requires
        ks.len() <= u64::MAX,
    ensures
        contagem(por_gerador(Seq::empty(), ks), gerador) == recebidas_de(ks, gerador),
        recebidas_de(ks, gerador) <= ks.len(),
    decreases ks.len(),
{
    if ks.len() > 0 {
        lei_contador_do_gerador(ks.drop_last(), gerador);
        let antes = por_gerador(Seq::empty(), ks.drop_last());
        if ks.last() is Recebida {
            let g = ks.last()->gerador;
            lei_contador_do_gerador(ks.drop_last(), g);
            lei_obtido_inserido(antes, g, (contagem(antes, g) + 1) as u64, gerador);
        }
    }
}

/// O nome do arquivo em que o receptor grava o seu log.
pub open spec fn nome_do_log(receptor: Seq<char>) -> Seq<char> {
    receptor + ".log"@
}

/// O nome do arquivo em que o receptor grava o seu log.
pub fn arquivo_do_log(receptor: &str) -> (r: String)
    ensures
        r@ == nome_do_log(receptor@),
{
    let mut r = receptor.to_owned();
    r.append(".log");
    r
}

/// As linhas de um log; um receptor que não recebeu nada não tem log.
pub open spec fn linhas_de(log: Option<Vec<Option<String>>>) -> Seq<Option<String>> {
    match log {
        Some(linhas) => linhas@,
        None => Seq::empty(),
    }
}

/// As linhas de todos os logs, em sequência.
pub open spec fn todas_as_linhas(logs: Seq<Option<Vec<Option<String>>>>) -> Seq<Option<String>>
    decreases logs.len(),
{
    if logs.len() == 0 {
        Seq::empty()
    } else {
        todas_as_linhas(logs.drop_last()) + linhas_de(logs.last())
    }
}

/// O que se coleta do log do receptor `i`, a partir de 1.
pub open spec fn coletado(
    est: EstatReceptor,
    i: nat,
    log: Option<Vec<Option<String>>>,
    inicio: Seq<(Seq<char>, i128)>,
) -> bool {
    let ks = classes(linhas_de(log), inicio);
    &&& est.valida()
    &&& est.nome@ == nome_do_receptor(i)
    &&& est.recebidas == recebidas(ks)
    &&& est.por_gerador@ == por_gerador(Seq::empty(), ks)
    &&& registradas(est.latencia) == latencias(Multiset::empty(), ks)
}

/// Agrega as métricas dos logs dos receptores, na ordem de `recv-1` em diante.
///
/// `inicio` dá o fim do aquecimento de cada gerador; mensagens anteriores a isso são descartadas.
pub fn coletar(logs: &Vec<Option<Vec<Option<String>>>>, inicio: &Tabela<i128>) -> (r: Agregado)
    requires
        todas_as_linhas(logs@).len() <= u64::MAX,
    ensures
        r.valida(),
        ({
            let ks = classes(todas_as_linhas(logs@), inicio@);
            &&& r.total_recebidas == recebidas(ks)
            &&& r.recebidas_por_gerador@ == por_gerador(Seq::empty(), ks)
            &&& r.descartadas_aquecimento == do_aquecimento(ks)
            &&& r.linhas_invalidas == invalidas(ks)
            &&& r.anomalias_relogio == anomalias(ks)
        }),
        r.origens@.len() == 0,
        r.receptores@.len() == logs@.len(),
        forall|i: int|
            0 <= i < logs@.len() ==> coletado(
                #[trigger] r.receptores@[i],
                (i + 1) as nat,
                logs@[i],
                inicio@,
            ),
{
    let mut ag = Agregado::novo();
    let total: usize = logs.len();
    let mut i: usize = 0;
    proof {
        assert(classes(todas_as_linhas(logs@.take(0)), inicio@) =~= Seq::<ClasseVista>::empty());
    }
    while i < total
        invariant
            i <= total,
            total == logs@.len(),
            todas_as_linhas(logs@).len() <= u64::MAX,
            ag.valida(),
            ag.origens@.len() == 0,
            ({
                let ks = classes(todas_as_linhas(logs@.take(i as int)), inicio@);
                &&& ag.total_recebidas == recebidas(ks)
                &&& ag.recebidas_por_gerador@ == por_gerador(Seq::empty(), ks)
                &&& ag.descartadas_aquecimento == do_aquecimento(ks)
                &&& ag.linhas_invalidas == invalidas(ks)
                &&& ag.anomalias_relogio == anomalias(ks)
            }),
            ag.receptores@.len() == i,
            forall|j: int|
                0 <= j < i ==> coletado(
                    #[trigger] ag.receptores@[j],
                    (j + 1) as nat,
                    logs@[j],
                    inicio@,
                ),
        decreases total - i,
    {
        let ghost antes = todas_as_linhas(logs@.take(i as int));
        let ghost novas = linhas_de(logs@[i as int]);
        proof {
            assert(logs@.take(i + 1).drop_last() =~= logs@.take(i as int));
            assert(todas_as_linhas(logs@.take(i + 1)) == antes + novas);
            lemma_linhas_do_prefixo(logs@, i + 1);
            lei_cada_linha_uma_vez(classes(antes, inicio@));
            assert(classes(antes + novas, inicio@) =~= classes(antes, inicio@) + classes(
                novas,
                inicio@,
            ));
            lei_partes_do_log(
                classes(antes, inicio@),
                classes(novas, inicio@),
                Seq::empty(),
                Multiset::empty(),
            );
        }
        let mut est = EstatReceptor::novo(nome_receptor(i + 1));
        if let Some(linhas) = &logs[i] {
            ag.absorver(&mut est, linhas, inicio);
        } else {
            proof {
                assert(classes(novas, inicio@) =~= Seq::<ClasseVista>::empty());
            }
        }
        ag.receptores.push(est);
        i = i + 1;
    }
    proof {
        assert(logs@.take(logs@.len() as int) =~= logs@);
    }
    ag
}

proof fn lemma_linhas_do_prefixo(logs: Seq<Option<Vec<Option<String>>>>, i: int)
    requires
        0 <= i <= logs.len(),
    ensures
        todas_as_linhas(logs.take(i)).len() <= todas_as_linhas(logs).len(),
    decreases logs.len() - i,
{
    if i < logs.len() {
        lemma_linhas_do_prefixo(logs, i + 1);
        assert(logs.take(i + 1).drop_last() =~= logs.take(i));
    } else {
        assert(logs.take(i) =~= logs);
    }
}

/// A soma do que cada receptor recebeu.
pub open spec fn soma_dos_receptores(rs: Seq<EstatReceptor>) -> int
    decreases rs.len(),
{
    if rs.len() == 0 {
        0
    } else {
        soma_dos_receptores(rs.drop_last()) + rs.last().recebidas
    }
}

/// O total recebido é a soma do que cada receptor recebeu.
pub proof fn lei_total_dos_receptores(
    rs: Seq<EstatReceptor>,
    logs: Seq<Option<Vec<Option<String>>>>,
    inicio: Seq<(Seq<char>, i128)>,
)
    requires
        rs.len() == logs.len(),
        forall|i: int|
            0 <= i < logs.len() ==> coletado(#[trigger] rs[i], (i + 1) as nat, logs[i], inicio),
    ensures
        soma_dos_receptores(rs) == recebidas(classes(todas_as_linhas(logs), inicio)),
    decreases logs.len(),
{
    if logs.len() == 0 {
        assert(classes(todas_as_linhas(logs), inicio) =~= Seq::<ClasseVista>::empty());
    } else {
        let n = logs.len() - 1;
        lei_total_dos_receptores(rs.drop_last(), logs.drop_last(), inicio);
        let antes = todas_as_linhas(logs.drop_last());
        let novas = linhas_de(logs.last());
        assert(classes(antes + novas, inicio) =~= classes(antes, inicio) + classes(novas, inicio));
        lei_partes_do_log(
            classes(antes, inicio),
            classes(novas, inicio),
            Seq::empty(),
            Multiset::empty(),
        );
        assert(coletado(rs[n], (n + 1) as nat, logs[n], inicio));
    }
}

proof fn lemma_recebidas_em_partes(a: Seq<ClasseVista>, b: Seq<ClasseVista>, gerador: Seq<char>)
    ensures
        recebidas_de(a + b, gerador) == recebidas_de(a, gerador) + recebidas_de(b, gerador),
    decreases b.len(),
{
    if b.len() == 0 {
        assert(a + b =~= a);
    } else {
        lemma_recebidas_em_partes(a, b.drop_last(), gerador);
        assert((a + b).drop_last() =~= a + b.drop_last());
        assert((a + b).last() == b.last());
    }
}

/// A soma do que cada receptor recebeu de um gerador.
pub open spec fn soma_do_gerador(rs: Seq<EstatReceptor>, gerador: Seq<char>) -> int
    decreases rs.len(),
{
    if rs.len() == 0 {
        0
    } else {
        soma_do_gerador(rs.drop_last(), gerador) + contagem(rs.last().por_gerador@, gerador)
    }
}

/// O que se recebeu de um gerador é a soma do que cada receptor recebeu dele.
pub proof fn lei_total_do_gerador(
    rs: Seq<EstatReceptor>,
    logs: Seq<Option<Vec<Option<String>>>>,
    inicio: Seq<(Seq<char>, i128)>,
    gerador: Seq<char>,
)
    requires
        rs.len() == logs.len(),
        forall|i: int|
            0 <= i < logs.len() ==> coletado(#[trigger] rs[i], (i + 1) as nat, logs[i], inicio),
        todas_as_linhas(logs).len() <= u64::MAX,
    ensures
        soma_do_gerador(rs, gerador) == contagem(
            por_gerador(Seq::empty(), classes(todas_as_linhas(logs), inicio)),
            gerador,
        ),
    decreases logs.len(),
{
    let todas = classes(todas_as_linhas(logs), inicio);
    lei_contador_do_gerador(todas, gerador);
    if logs.len() == 0 {
        assert(todas =~= Seq::<ClasseVista>::empty());
    } else {
        let n = logs.len() - 1;
        let antes = todas_as_linhas(logs.drop_last());
        let novas = linhas_de(logs.last());
        lei_total_do_gerador(rs.drop_last(), logs.drop_last(), inicio, gerador);
        assert(todas =~= classes(antes, inicio) + classes(novas, inicio));
        lemma_recebidas_em_partes(classes(antes, inicio), classes(novas, inicio), gerador);
        lei_contador_do_gerador(classes(antes, inicio), gerador);
        lei_contador_do_gerador(classes(novas, inicio), gerador);
        assert(coletado(rs[n], (n + 1) as nat, logs[n], inicio));
    }
}

// ---- Conferência ----

/// Contadores do relay extraídos do `impstats`, para conferência cruzada.
#[derive(Debug)]
pub struct Conferencia {
    pub recebidas_relay: u64,
    pub encaminhadas: u64,
    pub na_fila: u64,
    pub descartadas_fila: u64,
    pub disponivel: bool,
}

impl Default for Conferencia {
    fn default() -> (r: Conferencia)
        ensures
            r.recebidas_relay == 0,
            r.encaminhadas == 0,
            r.na_fila == 0,
            r.descartadas_fila == 0,
            !r.disponivel,
    {
        Conferencia {
            recebidas_relay: 0,
            encaminhadas: 0,
            na_fila: 0,
            descartadas_fila: 0,
            disponivel: false,
        }
    }
}

/// As amostras do relay vistas até aqui: a última de cada origem.
pub struct Amostras {
    pub recebidas: Tabela<u64>,
    pub encaminhadas: Tabela<u64>,
    pub na_fila: u64,
    pub descartadas_fila: u64,
    pub disponivel: bool,
}

pub struct AmostrasVistas {
    pub recebidas: Seq<(Seq<char>, u64)>,
    pub encaminhadas: Seq<(Seq<char>, u64)>,
    pub na_fila: u64,
    pub descartadas_fila: u64,
    pub disponivel: bool,
}

impl View for Amostras {
    type V = AmostrasVistas;

    open spec fn view(&self) -> AmostrasVistas {
        AmostrasVistas {
            recebidas: self.recebidas@,
            encaminhadas: self.encaminhadas@,
            na_fila: self.na_fila,
            descartadas_fila: self.descartadas_fila,
            disponivel: self.disponivel,
        }
    }
}

/// Nenhuma amostra.
pub open spec fn sem_amostras() -> AmostrasVistas {
    AmostrasVistas {
        recebidas: Seq::empty(),
        encaminhadas: Seq::empty(),
        na_fila: 0,
        descartadas_fila: 0,
        disponivel: false,
    }
}

/// As amostras depois de mais uma. Os contadores são cumulativos, então a nova substitui a anterior
/// da mesma origem.
pub open spec fn com_amostra(
    a: AmostrasVistas,
    ms: Seq<(Seq<char>, EscalarVisto)>,
) -> AmostrasVistas {
    let origem = texto_do_membro(ms, "origin"@);
    let nome = texto_do_membro(ms, "name"@);
    if origem == "imudp"@ || origem == "imtcp"@ {
        match natural_do_membro(ms, "submitted"@) {
            Some(n) => AmostrasVistas {
                recebidas: inserido(a.recebidas, origem + "/"@ + nome, n),
                disponivel: true,
                ..a
            },
            None => a,
        }
    } else if origem == "omfwd"@ {
        AmostrasVistas {
            encaminhadas: inserido(a.encaminhadas, nome, numero_do_membro(ms, "messages.sent"@)),
            disponivel: true,
            ..a
        }
    } else if origem == "core.queue"@ && (comeca(nome, "action"@) || contem(nome, "main"@)) {
        AmostrasVistas {
            na_fila: numero_do_membro(ms, "size"@),
            descartadas_fila: numero_do_membro(ms, "discarded.full"@).wrapping_add(
                numero_do_membro(ms, "discarded.nf"@),
            ).wrapping_add(numero_do_membro(ms, "full"@)),
            ..a
        }
    } else {
        a
    }
}

/// As amostras das linhas, na ordem, acrescentadas às que já havia. Antes do objeto JSON pode haver
/// um prefixo syslog.
pub open spec fn amostras_desde(a: AmostrasVistas, linhas: Seq<String>) -> AmostrasVistas
    decreases linhas.len(),
{
    if linhas.len() == 0 {
        a
    } else {
        let antes = amostras_desde(a, linhas.drop_last());
        let linha = linhas.last()@;
        let k = ate(linha, '{') as int;
        if k < linha.len() && objeto_lido(linha.skip(k)) is Some {
            com_amostra(antes, objeto_lido(linha.skip(k))->0)
        } else {
            antes
        }
    }
}

/// As amostras das linhas, na ordem.
pub open spec fn amostras_das_linhas(linhas: Seq<String>) -> AmostrasVistas {
    amostras_desde(sem_amostras(), linhas)
}

impl Amostras {
    /// Nenhuma amostra.
    pub fn novas() -> (r: Amostras)
        ensures
            r@ == sem_amostras(),
    {
        Amostras {
            recebidas: Tabela::nova(),
            encaminhadas: Tabela::nova(),
            na_fila: 0,
            descartadas_fila: 0,
            disponivel: false,
        }
    }

    /// Acrescenta a amostra que os membros de um objeto trazem.
    pub fn acrescentar(&mut self, ms: &Vec<(String, Escalar)>)
        ensures
            final(self)@ == com_amostra(old(self)@, membros(ms@)),
    {
        let origem = ler_texto(ms, "origin");
        let nome = ler_texto(ms, "name");
        if iguais(origem.as_str(), "imudp") || iguais(origem.as_str(), "imtcp") {
            if let Some(n) = ler_natural(ms, "submitted") {
                let mut chave = origem;
                chave.append("/");
                chave.append(nome.as_str());
                self.recebidas.por(chave.as_str(), n);
                self.disponivel = true;
            }
        } else if iguais(origem.as_str(), "omfwd") {
            // Um contador por alvo do pool; o total é a soma deles.
            self.encaminhadas.por(nome.as_str(), ler_numero(ms, "messages.sent"));
            self.disponivel = true;
        } else if iguais(origem.as_str(), "core.queue") && da_fila(nome.as_str()) {
            self.na_fila = ler_numero(ms, "size");
            self.descartadas_fila = ler_numero(ms, "discarded.full").wrapping_add(
                ler_numero(ms, "discarded.nf"),
            ).wrapping_add(ler_numero(ms, "full"));
        }
    }

    /// Os totais das amostras.
    pub fn totalizar(&self) -> (r: Conferencia)
        ensures
            r.recebidas_relay == soma(self@.recebidas) % 0x1_0000_0000_0000_0000,
            r.encaminhadas == soma(self@.encaminhadas) % 0x1_0000_0000_0000_0000,
            r.na_fila == self@.na_fila,
            r.descartadas_fila == self@.descartadas_fila,
            r.disponivel == self@.disponivel,
    {
        Conferencia {
            recebidas_relay: self.recebidas.somar(),
            encaminhadas: self.encaminhadas.somar(),
            na_fila: self.na_fila,
            descartadas_fila: self.descartadas_fila,
            disponivel: self.disponivel,
        }
    }
}

fn da_fila(nome: &str) -> (r: bool)
    ensures
        r == (comeca(nome@, "action"@) || contem(nome@, "main"@)),
{
    let cs = caracteres(nome);
    proof {
        assert(cs@.skip(0) =~= cs@);
    }
    comeca_em(&cs, 0, "action") || contem_trecho(nome, "main")
}

/// Confere os contadores do relay a partir das linhas do seu `relay-stats.log`. Como
/// `resetCounters` está desligado, os contadores são cumulativos e basta ficar com a última amostra
/// de cada origem.
pub fn conferir(linhas: &Vec<String>) -> (r: Conferencia)
    ensures
        ({
            let a = amostras_das_linhas(linhas@);
            &&& r.recebidas_relay == soma(a.recebidas) % 0x1_0000_0000_0000_0000
            &&& r.encaminhadas == soma(a.encaminhadas) % 0x1_0000_0000_0000_0000
            &&& r.na_fila == a.na_fila
            &&& r.descartadas_fila == a.descartadas_fila
            &&& r.disponivel == a.disponivel
        }),
{
    let mut a = Amostras::novas();
    let mut i: usize = 0;
    while i < linhas.len()
        invariant
            i <= linhas@.len(),
            a@ == amostras_das_linhas(linhas@.take(i as int)),
        decreases linhas@.len() - i,
    {
        proof {
            assert(linhas@.take(i + 1).drop_last() =~= linhas@.take(i as int));
        }
        let cs = caracteres(linhas[i].as_str());
        let k = procurar(&cs, 0, '{');
        proof {
            assert(cs@.skip(0) =~= cs@);
            assert(cs@.subrange(k as int, cs@.len() as int) =~= cs@.skip(k as int));
        }
        if k < cs.len() {
            if let Some(ms) = ler_objeto(trecho(&cs, k, cs.len()).as_str()) {
                a.acrescentar(&ms);
            }
        }
        i = i + 1;
    }
    proof {
        assert(linhas@.take(linhas@.len() as int) =~= linhas@);
    }
    a.totalizar()
}

/// De cada entrada e de cada alvo vale a última amostra, e uma amostra não mexe nas das outras
/// origens.
pub proof fn lei_ultima_amostra(
    a: AmostrasVistas,
    ms: Seq<(Seq<char>, EscalarVisto)>,
    outra: Seq<char>,
)
    ensures
        ({
            let origem = texto_do_membro(ms, "origin"@);
            let nome = texto_do_membro(ms, "name"@);
            let entrada = origem + "/"@ + nome;
            let b = com_amostra(a, ms);
            &&& (origem == "imudp"@ || origem == "imtcp"@) && natural_do_membro(ms, "submitted"@)
                is Some ==> obtido(b.recebidas, entrada) == natural_do_membro(ms, "submitted"@)
                && b.disponivel
            &&& origem == "omfwd"@ ==> obtido(b.encaminhadas, nome) == Some(
                numero_do_membro(ms, "messages.sent"@),
            ) && b.disponivel
            &&& outra != entrada ==> obtido(b.recebidas, outra) == obtido(a.recebidas, outra)
            &&& outra != nome ==> obtido(b.encaminhadas, outra) == obtido(a.encaminhadas, outra)
            &&& a.disponivel ==> b.disponivel
        }),
{
    reveal_strlit("imudp");
    reveal_strlit("imtcp");
    reveal_strlit("omfwd");
    assert("omfwd"@[0] != "imudp"@[0]);
    let origem = texto_do_membro(ms, "origin"@);
    let nome = texto_do_membro(ms, "name"@);
    if let Some(n) = natural_do_membro(ms, "submitted"@) {
        lei_obtido_inserido(a.recebidas, origem + "/"@ + nome, n, outra);
    }
    lei_obtido_inserido(a.encaminhadas, nome, numero_do_membro(ms, "messages.sent"@), outra);
}

} // verus!
