//! Validação e normalização da configuração do teste.

use vstd::prelude::*;
use vstd::string::*;
use vstd::utf8::{encode_utf8, is_ascii_chars, is_ascii_chars_encode_utf8};

use crate::decimal::digitos;
use crate::duracao::Duracao;
use crate::inteiros::lei_numerais_distintos;
use crate::leitura::{minusculas, minusculizar};
use crate::reais::Real;
use crate::texto::{aparado, caracteres, citado, citar, decimal, iguais, limites_aparados};

pub use crate::duracao::analisar_duracao;

verus! {

/// Menor tamanho de mensagem que ainda comporta o cabeçalho RFC5424 e os campos de medição.
pub const TAMANHO_MINIMO: usize = 128;

/// Maior tamanho do nome de um gerador, em bytes.
pub const NOME_MAXIMO: usize = 16;

/// Prefixo dos containers, usado também para limpeza.
pub const PREFIXO: &'static str = "hsb-";

pub struct Config {
    pub teste: Teste,
    pub relay: Relay,
    pub receptores: Receptores,
    pub tls: Tls,
    pub geradores: Vec<Gerador>,
    pub saida: Saida,
}

pub struct Teste {
    pub duracao: Duracao,
    pub aquecimento: Duracao,
    pub drenagem: Duracao,
    pub tamanho_mensagem: usize,
    pub taxa: u64,
    pub threads: usize,
    pub total_mensagens: u64,
}

pub struct Relay {
    pub tamanho_fila: u64,
    pub workers_fila: usize,
    pub rebind_interval: u64,
}

pub struct Receptores {
    pub quantidade: usize,
}

pub struct Tls {
    pub modo: ModoTls,
}

#[derive(Clone, Copy, Debug, PartialEq, Eq, Structural)]
pub enum ModoTls {
    /// Criptografa sem verificar nada. Nenhum certificado em lugar algum.
    Anon,
    /// Receptores apresentam certificado self-signed; o relay valida só a cadeia.
    Certvalid,
}

pub struct Gerador {
    pub nome: String,
    pub proto: Proto,
    pub peso: Real,
    pub threads: Option<usize>,
    pub tamanho_mensagem: Option<usize>,
    pub taxa: Option<u64>,
}

#[derive(Clone, Copy, Debug, PartialEq, Eq, Structural)]
pub enum Proto {
    Tcp,
    Udp,
}

pub struct Saida {
    pub diretorio: String,
    pub formato: Formato,
}

#[derive(Clone, Copy, Debug, PartialEq, Eq, Structural)]
pub enum Formato {
    Tabela,
    Json,
    Ambos,
}

impl ModoTls {
    pub open spec fn escrito(self) -> Seq<char> {
        match self {
            ModoTls::Anon => "Anon"@,
            ModoTls::Certvalid => "Certvalid"@,
        }
    }

    /// O nome do modo.
    pub fn texto(self) -> (r: &'static str)
        ensures
            r@ == self.escrito(),
    {
        match self {
            ModoTls::Anon => "Anon",
            ModoTls::Certvalid => "Certvalid",
        }
    }
}

impl Proto {
    pub open spec fn escrito(self) -> Seq<char> {
        match self {
            Proto::Tcp => "tcp"@,
            Proto::Udp => "udp"@,
        }
    }

    pub fn texto(self) -> (r: &'static str)
        ensures
            r@ == self.escrito(),
    {
        match self {
            Proto::Tcp => "tcp",
            Proto::Udp => "udp",
        }
    }

    /// O protocolo que um texto nomeia, sem distinguir maiúsculas.
    pub open spec fn nomeado(s: Seq<char>) -> Option<Proto> {
        if minusculas(s) == "tcp"@ {
            Some(Proto::Tcp)
        } else if minusculas(s) == "udp"@ {
            Some(Proto::Udp)
        } else {
            None
        }
    }

    /// Lê um protocolo; o erro é a mensagem mostrada ao usuário.
    pub fn de_texto(s: &str) -> (r: Result<Proto, String>)
        ensures
            match r {
                Ok(p) => Proto::nomeado(s@) == Some(p),
                Err(m) => Proto::nomeado(s@) is None && m@ == "protocolo inválido: "@ + citado(
                    minusculas(s@),
                ) + " (use tcp ou udp)"@,
            },
    {
        let cs = caracteres(s);
        let mut baixo = String::new();
        let mut i: usize = 0;
        while i < cs.len()
            invariant
                i <= cs@.len(),
                baixo@ == minusculas(cs@.take(i as int)),
            decreases cs@.len() - i,
        {
            baixo.push(minusculizar(cs[i]));
            i = i + 1;
            proof {
                assert(baixo@ =~= minusculas(cs@.take(i as int)));
            }
        }
        proof {
            assert(cs@.take(cs@.len() as int) =~= cs@);
            reveal_strlit("tcp");
            reveal_strlit("udp");
            assert("tcp"@[0] != "udp"@[0]);
        }
        if iguais(baixo.as_str(), "tcp") {
            Ok(Proto::Tcp)
        } else if iguais(baixo.as_str(), "udp") {
            Ok(Proto::Udp)
        } else {
            let mut m = "protocolo inválido: ".to_owned();
            m.append(citar(baixo.as_str()).as_str());
            m.append(" (use tcp ou udp)");
            Err(m)
        }
    }
}

impl std::str::FromStr for Proto {
    type Err = String;

    fn from_str(s: &str) -> (r: Result<Proto, String>)
        ensures
            match r {
                Ok(p) => Proto::nomeado(s@) == Some(p),
                Err(m) => Proto::nomeado(s@) is None && m@ == "protocolo inválido: "@ + citado(
                    minusculas(s@),
                ) + " (use tcp ou udp)"@,
            },
    {
        Proto::de_texto(s)
    }
}

impl Formato {
    pub fn quer_tabela(self) -> (r: bool)
        ensures
            r == (self is Tabela || self is Ambos),
    {
        matches!(self, Formato::Tabela | Formato::Ambos)
    }

    pub fn quer_json(self) -> (r: bool)
        ensures
            r == (self is Json || self is Ambos),
    {
        matches!(self, Formato::Json | Formato::Ambos)
    }
}

// ---- Padrões ----

pub fn drenagem_padrao() -> (r: Duracao)
    ensures
        r.total() == 10 * 1_000_000_000,
        r.normal(),
{
    Duracao::de_segundos(10)
}

pub fn tamanho_padrao() -> (r: usize)
    ensures
        r == 512,
{
    512
}

pub fn threads_padrao() -> (r: usize)
    ensures
        r == 4,
{
    4
}

pub fn fila_padrao() -> (r: u64)
    ensures
        r == 100_000,
{
    100_000
}

pub fn workers_padrao() -> (r: usize)
    ensures
        r == 1,
{
    1
}

pub fn peso_padrao() -> (r: Real)
    ensures
        r == Real::do_inteiro(1),
{
    Real::de_u64(1)
}

pub fn diretorio_padrao() -> (r: String)
    ensures
        r@ == "./resultados"@,
{
    "./resultados".to_owned()
}

impl Default for ModoTls {
    fn default() -> (r: ModoTls)
        ensures
            r == ModoTls::Anon,
    {
        ModoTls::Anon
    }
}

impl Default for Tls {
    fn default() -> (r: Tls)
        ensures
            r.modo == ModoTls::Anon,
    {
        Tls { modo: ModoTls::Anon }
    }
}

impl Default for Formato {
    fn default() -> (r: Formato)
        ensures
            r == Formato::Tabela,
    {
        Formato::Tabela
    }
}

impl Default for Relay {
    fn default() -> (r: Relay)
        ensures
            r.tamanho_fila == 100_000,
            r.workers_fila == 1,
            r.rebind_interval == 0,
    {
        Relay { tamanho_fila: fila_padrao(), workers_fila: workers_padrao(), rebind_interval: 0 }
    }
}

impl Default for Saida {
    fn default() -> (r: Saida)
        ensures
            r.diretorio@ == "./resultados"@,
            r.formato == Formato::Tabela,
    {
        Saida { diretorio: diretorio_padrao(), formato: Formato::Tabela }
    }
}

// ---- Validação ----

/// O que impede uma configuração de ser usada.
#[derive(Debug)]
pub enum ErroConfig {
    SemGeradores,
    SemReceptores,
    SemThreads,
    TamanhoPequeno { tamanho: usize },
    SemDuracao,
    AquecimentoLongo,
    SemWorkers,
    NomeVazio,
    NomeLongo { nome: String },
    NomeInvalido { nome: String },
    NomeDuplicado { nome: String },
    GeradorSemThreads { nome: String },
    GeradorTamanhoPequeno { nome: String, tamanho: usize },
    PesoInvalido { nome: String },
    SemTaxa,
}

impl ErroConfig {
    pub open spec fn texto_da_mensagem(self) -> Seq<char> {
        match self {
            ErroConfig::SemGeradores => "é preciso declarar ao menos um [[gerador]]"@,
            ErroConfig::SemReceptores => "receptores.quantidade precisa ser no mínimo 1"@,
            ErroConfig::SemThreads => "teste.threads precisa ser no mínimo 1"@,
            ErroConfig::TamanhoPequeno { tamanho } => "teste.tamanho_mensagem = "@ + digitos(
                tamanho as nat,
            ) + " é menor que o mínimo de "@ + digitos(TAMANHO_MINIMO as nat) + " bytes"@,
            ErroConfig::SemDuracao =>
                "com total_mensagens = 0, teste.duracao precisa ser maior que zero"@,
            ErroConfig::AquecimentoLongo =>
                "teste.aquecimento precisa ser menor que teste.duracao"@,
            ErroConfig::SemWorkers => "relay.workers_fila precisa ser no mínimo 1"@,
            ErroConfig::NomeVazio => "todo [[gerador]] precisa de um nome"@,
            ErroConfig::NomeLongo { nome } => "nome de gerador "@ + citado(nome@)
                + " excede 16 caracteres"@,
            ErroConfig::NomeInvalido { nome } => "nome de gerador "@ + citado(nome@)
                + " só pode conter letras, números, '-' e '_'"@,
            ErroConfig::NomeDuplicado { nome } => "nome de gerador duplicado: "@ + citado(nome@),
            ErroConfig::GeradorSemThreads { nome } => "gerador "@ + citado(nome@)
                + ": threads precisa ser no mínimo 1"@,
            ErroConfig::GeradorTamanhoPequeno { nome, tamanho } => "gerador "@ + citado(nome@)
                + ": tamanho_mensagem = "@ + digitos(tamanho as nat) + " é menor que o mínimo de "@
                + digitos(TAMANHO_MINIMO as nat) + " bytes"@,
            ErroConfig::PesoInvalido { nome } => "gerador "@ + citado(nome@)
                + ": peso precisa ser maior que zero (ou defina uma taxa absoluta)"@,
            ErroConfig::SemTaxa =>
                "teste.taxa precisa ser maior que zero para repartir entre os geradores por peso"@,
        }
    }

    /// A mensagem mostrada ao usuário.
    pub fn mensagem(&self) -> (r: String)
        ensures
            r@ == self.texto_da_mensagem(),
    {
        match self {
            ErroConfig::SemGeradores => "é preciso declarar ao menos um [[gerador]]".to_owned(),
            ErroConfig::SemReceptores =>
                "receptores.quantidade precisa ser no mínimo 1".to_owned(),
            ErroConfig::SemThreads => "teste.threads precisa ser no mínimo 1".to_owned(),
            ErroConfig::TamanhoPequeno { tamanho } => {
                let mut m = "teste.tamanho_mensagem = ".to_owned();
                m.append(decimal(*tamanho as u128).as_str());
                m.append(" é menor que o mínimo de ");
                m.append(decimal(TAMANHO_MINIMO as u128).as_str());
                m.append(" bytes");
                m
            },
            ErroConfig::SemDuracao =>
                "com total_mensagens = 0, teste.duracao precisa ser maior que zero".to_owned(),
            ErroConfig::AquecimentoLongo =>
                "teste.aquecimento precisa ser menor que teste.duracao".to_owned(),
            ErroConfig::SemWorkers => "relay.workers_fila precisa ser no mínimo 1".to_owned(),
            ErroConfig::NomeVazio => "todo [[gerador]] precisa de um nome".to_owned(),
            ErroConfig::NomeLongo { nome } => sobre_nome(
                "nome de gerador ",
                nome,
                " excede 16 caracteres",
            ),
            ErroConfig::NomeInvalido { nome } => sobre_nome(
                "nome de gerador ",
                nome,
                " só pode conter letras, números, '-' e '_'",
            ),
            ErroConfig::NomeDuplicado { nome } => {
                let mut m = "nome de gerador duplicado: ".to_owned();
                m.append(citar(nome.as_str()).as_str());
                m
            },
            ErroConfig::GeradorSemThreads { nome } => sobre_nome(
                "gerador ",
                nome,
                ": threads precisa ser no mínimo 1",
            ),
            ErroConfig::GeradorTamanhoPequeno { nome, tamanho } => {
                let mut m = sobre_nome("gerador ", nome, ": tamanho_mensagem = ");
                m.append(decimal(*tamanho as u128).as_str());
                m.append(" é menor que o mínimo de ");
                m.append(decimal(TAMANHO_MINIMO as u128).as_str());
                m.append(" bytes");
                m
            },
            ErroConfig::PesoInvalido { nome } => sobre_nome(
                "gerador ",
                nome,
                ": peso precisa ser maior que zero (ou defina uma taxa absoluta)",
            ),
            ErroConfig::SemTaxa =>
                "teste.taxa precisa ser maior que zero para repartir entre os geradores por peso".to_owned(),
        }
    }
}

fn sobre_nome(antes: &str, nome: &String, depois: &str) -> (r: String)
    ensures
        r@ == antes@ + citado(nome@) + depois@,
{
    let mut m = antes.to_owned();
    m.append(citar(nome.as_str()).as_str());
    m.append(depois);
    m
}

/// Letras e números ASCII, `-` e `_`.
pub open spec fn permitido(c: char) -> bool {
    ('a' <= c <= 'z') || ('A' <= c <= 'Z') || ('0' <= c <= '9') || c == '-' || c == '_'
}

/// Se todos os caracteres do nome são permitidos.
pub open spec fn nome_permitido(s: Seq<char>) -> bool {
    forall|i: int| 0 <= i < s.len() ==> permitido(#[trigger] s[i])
}

/// Se algum dos geradores antes do `i`-ésimo tem o mesmo nome.
pub open spec fn nome_repetido(gs: Seq<Gerador>, i: int) -> bool {
    exists|j: int| 0 <= j < i && (#[trigger] gs[j]).nome@ == gs[i].nome@
}

/// O que impede o nome do `i`-ésimo gerador de ser usado.
pub open spec fn falha_do_nome(gs: Seq<Gerador>, i: int) -> Option<ErroConfig> {
    let nome = gs[i].nome;
    if aparado(nome@).len() == 0 {
        Some(ErroConfig::NomeVazio)
    } else if encode_utf8(nome@).len() > NOME_MAXIMO {
        Some(ErroConfig::NomeLongo { nome })
    } else if !nome_permitido(nome@) {
        Some(ErroConfig::NomeInvalido { nome })
    } else if nome_repetido(gs, i) {
        Some(ErroConfig::NomeDuplicado { nome })
    } else {
        None
    }
}

/// O que impede os parâmetros de um gerador de serem usados.
pub open spec fn falha_dos_parametros(g: Gerador) -> Option<ErroConfig> {
    if g.threads == Some(0usize) {
        Some(ErroConfig::GeradorSemThreads { nome: g.nome })
    } else if g.tamanho_mensagem is Some && g.tamanho_mensagem->0 < TAMANHO_MINIMO {
        Some(ErroConfig::GeradorTamanhoPequeno { nome: g.nome, tamanho: g.tamanho_mensagem->0 })
    } else if g.taxa is None && g.peso.menor_ou_igual(Real::do_inteiro(0)) {
        Some(ErroConfig::PesoInvalido { nome: g.nome })
    } else {
        None
    }
}

/// O que impede o `i`-ésimo gerador de ser usado.
pub open spec fn falha_do_gerador(gs: Seq<Gerador>, i: int) -> Option<ErroConfig> {
    if falha_do_nome(gs, i) is Some {
        falha_do_nome(gs, i)
    } else {
        falha_dos_parametros(gs[i])
    }
}

/// A primeira falha a partir do `i`-ésimo gerador.
pub open spec fn primeira_falha(gs: Seq<Gerador>, i: int) -> Option<ErroConfig>
    decreases gs.len() - i,
{
    if i < 0 || i >= gs.len() {
        None
    } else if falha_do_gerador(gs, i) is Some {
        falha_do_gerador(gs, i)
    } else {
        primeira_falha(gs, i + 1)
    }
}

/// Se algum gerador recebe a sua taxa por peso.
pub open spec fn algum_por_peso(gs: Seq<Gerador>) -> bool {
    exists|i: int| 0 <= i < gs.len() && (#[trigger] gs[i]).taxa is None
}

impl Config {
    /// O resultado da validação: a primeira falha, na ordem das verificações.
    pub open spec fn validacao(self) -> Result<(), ErroConfig> {
        let gs = self.geradores@;
        if gs.len() == 0 {
            Err(ErroConfig::SemGeradores)
        } else if self.receptores.quantidade == 0 {
            Err(ErroConfig::SemReceptores)
        } else if self.teste.threads == 0 {
            Err(ErroConfig::SemThreads)
        } else if self.teste.tamanho_mensagem < TAMANHO_MINIMO {
            Err(ErroConfig::TamanhoPequeno { tamanho: self.teste.tamanho_mensagem })
        } else if self.teste.total_mensagens == 0 && self.teste.duracao.total() == 0 {
            Err(ErroConfig::SemDuracao)
        } else if self.teste.aquecimento.total() >= self.teste.duracao.total()
            && self.teste.total_mensagens == 0 {
            Err(ErroConfig::AquecimentoLongo)
        } else if self.relay.workers_fila == 0 {
            Err(ErroConfig::SemWorkers)
        } else if primeira_falha(gs, 0) is Some {
            Err(primeira_falha(gs, 0)->0)
        } else if algum_por_peso(gs) && self.teste.taxa == 0 {
            Err(ErroConfig::SemTaxa)
        } else {
            Ok(())
        }
    }

    /// Verifica se a configuração pode ser usada.
    pub fn validar(&self) -> (r: Result<(), ErroConfig>)
        ensures
            r == self.validacao(),
    {
        if self.geradores.len() == 0 {
            return Err(ErroConfig::SemGeradores);
        }
        if self.receptores.quantidade == 0 {
            return Err(ErroConfig::SemReceptores);
        }
        if self.teste.threads == 0 {
            return Err(ErroConfig::SemThreads);
        }
        if self.teste.tamanho_mensagem < TAMANHO_MINIMO {
            return Err(ErroConfig::TamanhoPequeno { tamanho: self.teste.tamanho_mensagem });
        }
        if self.teste.total_mensagens == 0 && self.teste.duracao.zerada() {
            return Err(ErroConfig::SemDuracao);
        }
        if self.teste.aquecimento.alcanca(self.teste.duracao) && self.teste.total_mensagens == 0 {
            return Err(ErroConfig::AquecimentoLongo);
        }
        if self.relay.workers_fila == 0 {
            return Err(ErroConfig::SemWorkers);
        }
        if let Some(e) = procurar_falha(&self.geradores) {
            return Err(e);
        }
        if ha_por_peso(&self.geradores) && self.teste.taxa == 0 {
            return Err(ErroConfig::SemTaxa);
        }
        Ok(())
    }
}

fn procurar_falha(gs: &Vec<Gerador>) -> (r: Option<ErroConfig>)
    ensures
        r == primeira_falha(gs@, 0),
{
    let mut i: usize = 0;
    while i < gs.len()
        invariant
            i <= gs@.len(),
            primeira_falha(gs@, i as int) == primeira_falha(gs@, 0),
        decreases gs@.len() - i,
    {
        let falha = verificar_gerador(gs, i);
        if falha.is_some() {
            return falha;
        }
        i = i + 1;
    }
    None
}

fn ha_por_peso(gs: &Vec<Gerador>) -> (r: bool)
    ensures
        r == algum_por_peso(gs@),
{
    let mut i: usize = 0;
    while i < gs.len()
        invariant
            i <= gs@.len(),
            forall|j: int| 0 <= j < i ==> (#[trigger] gs@[j]).taxa is Some,
        decreases gs@.len() - i,
    {
        if gs[i].taxa.is_none() {
            return true;
        }
        i = i + 1;
    }
    false
}

fn nome_eh_permitido(cs: &Vec<char>) -> (r: bool)
    ensures
        r == nome_permitido(cs@),
{
    let mut i: usize = 0;
    while i < cs.len()
        invariant
            i <= cs@.len(),
            forall|j: int| 0 <= j < i ==> permitido(#[trigger] cs@[j]),
        decreases cs@.len() - i,
    {
        let c = cs[i];
        if !(('a' <= c && c <= 'z') || ('A' <= c && c <= 'Z') || ('0' <= c && c <= '9') || c == '-'
            || c == '_') {
            return false;
        }
        i = i + 1;
    }
    true
}

fn nome_ja_visto(gs: &Vec<Gerador>, i: usize) -> (r: bool)
    requires
        i < gs@.len(),
    ensures
        r == nome_repetido(gs@, i as int),
{
    let mut j: usize = 0;
    while j < i
        invariant
            j <= i < gs@.len(),
            forall|k: int| 0 <= k < j ==> (#[trigger] gs@[k]).nome@ != gs@[i as int].nome@,
        decreases i - j,
    {
        if gs[j].nome == gs[i].nome {
            return true;
        }
        j = j + 1;
    }
    false
}

fn verificar_nome(gs: &Vec<Gerador>, i: usize) -> (r: Option<ErroConfig>)
    requires
        i < gs@.len(),
    ensures
        r == falha_do_nome(gs@, i as int),
{
    let nome = &gs[i].nome;
    let cs = caracteres(nome.as_str());
    let (de, ate) = limites_aparados(&cs);
    if de == ate {
        return Some(ErroConfig::NomeVazio);
    }
    if nome.as_str().as_bytes().len() > NOME_MAXIMO {
        return Some(ErroConfig::NomeLongo { nome: nome.clone() });
    }
    if !nome_eh_permitido(&cs) {
        return Some(ErroConfig::NomeInvalido { nome: nome.clone() });
    }
    if nome_ja_visto(gs, i) {
        return Some(ErroConfig::NomeDuplicado { nome: nome.clone() });
    }
    None
}

fn verificar_parametros(g: &Gerador) -> (r: Option<ErroConfig>)
    ensures
        r == falha_dos_parametros(*g),
{
    if let Some(t) = g.threads {
        if t == 0 {
            return Some(ErroConfig::GeradorSemThreads { nome: g.nome.clone() });
        }
    }
    if let Some(t) = g.tamanho_mensagem {
        if t < TAMANHO_MINIMO {
            return Some(ErroConfig::GeradorTamanhoPequeno { nome: g.nome.clone(), tamanho: t });
        }
    }
    if g.taxa.is_none() && g.peso.ate(Real::de_u64(0)) {
        return Some(ErroConfig::PesoInvalido { nome: g.nome.clone() });
    }
    None
}

fn verificar_gerador(gs: &Vec<Gerador>, i: usize) -> (r: Option<ErroConfig>)
    requires
        i < gs@.len(),
    ensures
        r == falha_do_gerador(gs@, i as int),
{
    let falha = verificar_nome(gs, i);
    if falha.is_some() {
        return falha;
    }
    verificar_parametros(&gs[i])
}

// ---- Plano resolvido ----

/// Um gerador com todos os parâmetros já resolvidos (peso convertido em taxa absoluta).
pub struct GeradorPlano {
    pub nome: String,
    pub proto: Proto,
    pub peso: Real,
    pub fatia: Real,
    pub taxa: u64,
    pub threads: usize,
    pub tamanho_mensagem: usize,
    pub taxa_explicita: bool,
}

impl GeradorPlano {
    pub open spec fn nome_do_container(self) -> Seq<char> {
        "hsb-"@ + "gen-"@ + self.nome@
    }

    /// O nome do container do gerador.
    pub fn container(&self) -> (r: String)
        ensures
            r@ == self.nome_do_container(),
    {
        let mut r = PREFIXO.to_owned();
        r.append("gen-");
        r.append(self.nome.as_str());
        r
    }
}

/// A soma dos pesos dos `n` primeiros geradores sem taxa própria, na ordem.
pub open spec fn soma_dos_pesos(gs: Seq<Gerador>, n: int) -> Real
    decreases n,
{
    if n <= 0 {
        Real::do_inteiro(0)
    } else if gs[n - 1].taxa is None {
        soma_dos_pesos(gs, n - 1).soma(gs[n - 1].peso)
    } else {
        soma_dos_pesos(gs, n - 1)
    }
}

/// O nome DNS do `i`-ésimo receptor, a partir de 1.
pub open spec fn nome_do_receptor(i: nat) -> Seq<char> {
    "recv-"@ + digitos(i)
}

/// O nome DNS do `i`-ésimo receptor, a partir de 1.
pub fn nome_receptor(i: usize) -> (r: String)
    ensures
        r@ == nome_do_receptor(i as nat),
{
    let mut r = "recv-".to_owned();
    r.append(decimal(i as u128).as_str());
    r
}

impl Config {
    /// A fração da taxa total que cabe ao `i`-ésimo gerador.
    pub open spec fn fatia_de(self, i: int) -> Real {
        let gs = self.geradores@;
        let soma = soma_dos_pesos(gs, gs.len() as int);
        if gs[i].taxa is Some || soma.menor_ou_igual(Real::do_inteiro(0)) {
            Real::do_inteiro(0)
        } else {
            gs[i].peso.quociente(soma)
        }
    }

    /// O `i`-ésimo gerador do plano.
    pub open spec fn item_do_plano(self, i: int) -> GeradorPlano {
        let g = self.geradores@[i];
        GeradorPlano {
            nome: g.nome,
            proto: g.proto,
            peso: g.peso,
            fatia: self.fatia_de(i),
            taxa: match g.taxa {
                Some(t) => t,
                None => Real::do_inteiro(self.teste.taxa as int).produto(
                    self.fatia_de(i),
                ).arredondado_u64(),
            },
            threads: match g.threads {
                Some(t) => t,
                None => self.teste.threads,
            },
            tamanho_mensagem: match g.tamanho_mensagem {
                Some(t) => t,
                None => self.teste.tamanho_mensagem,
            },
            taxa_explicita: g.taxa is Some,
        }
    }

    /// O plano inteiro, um item por gerador.
    pub open spec fn plano_resolvido(self) -> Seq<GeradorPlano> {
        Seq::new(self.geradores@.len(), |i: int| self.item_do_plano(i))
    }

    /// Converte pesos em taxas absolutas. Geradores com `taxa` explícita a mantêm;
    /// os demais repartem `teste.taxa` proporcionalmente aos seus pesos.
    pub fn plano(&self) -> (r: Vec<GeradorPlano>)
        ensures
            r@ == self.plano_resolvido(),
    {
        let gs = &self.geradores;
        let zero = Real::de_u64(0);
        let mut soma = zero;
        let mut i: usize = 0;
        while i < gs.len()
            invariant
                i <= gs@.len(),
                soma == soma_dos_pesos(gs@, i as int),
            decreases gs@.len() - i,
        {
            if gs[i].taxa.is_none() {
                soma = soma.somar(gs[i].peso);
            }
            i = i + 1;
        }
        let mut r: Vec<GeradorPlano> = Vec::new();
        i = 0;
        while i < gs.len()
            invariant
                i <= gs@.len(),
                gs@ == self.geradores@,
                zero == Real::do_inteiro(0),
                soma == soma_dos_pesos(gs@, gs@.len() as int),
                r@ == self.plano_resolvido().take(i as int),
            decreases gs@.len() - i,
        {
            let g = &gs[i];
            let fatia = if g.taxa.is_some() || soma.ate(zero) {
                zero
            } else {
                g.peso.dividir(soma)
            };
            let taxa: u64 = match g.taxa {
                Some(t) => t,
                None => Real::de_u64(self.teste.taxa).multiplicar(fatia).arredondar_u64(),
            };
            let item = GeradorPlano {
                nome: g.nome.clone(),
                proto: g.proto,
                peso: g.peso,
                fatia,
                taxa,
                threads: g.threads.unwrap_or(self.teste.threads),
                tamanho_mensagem: g.tamanho_mensagem.unwrap_or(self.teste.tamanho_mensagem),
                taxa_explicita: g.taxa.is_some(),
            };
            proof {
                assert(item == self.item_do_plano(i as int));
            }
            r.push(item);
            i = i + 1;
            proof {
                assert(r@ =~= self.plano_resolvido().take(i as int));
            }
        }
        proof {
            assert(self.plano_resolvido().take(gs@.len() as int) =~= self.plano_resolvido());
        }
        r
    }

    /// Nomes DNS dos receptores dentro da rede podman.
    pub fn nomes_receptores(&self) -> (r: Vec<String>)
        ensures
            r@.len() == self.receptores.quantidade,
            forall|i: int|
                0 <= i < r@.len() ==> (#[trigger] r@[i])@ == nome_do_receptor((i + 1) as nat),
    {
        let mut r: Vec<String> = Vec::new();
        let n = self.receptores.quantidade;
        let mut i: usize = 0;
        while i < n
            invariant
                i <= n,
                r@.len() == i,
                forall|j: int|
                    0 <= j < i ==> (#[trigger] r@[j])@ == nome_do_receptor((j + 1) as nat),
            decreases n - i,
        {
            i = i + 1;
            r.push(nome_receptor(i));
        }
        r
    }
}

// ---- Leis ----

/// O nome de um protocolo é lido como ele, em maiúsculas ou minúsculas.
pub proof fn lei_protocolo_lido(p: Proto, s: Seq<char>)
    requires
        minusculas(s) == p.escrito(),
    ensures
        Proto::nomeado(s) == Some(p),
{
    reveal_strlit("tcp");
    reveal_strlit("udp");
    assert("tcp"@[0] != "udp"@[0]);
}

/// Receptores diferentes têm nomes diferentes.
pub proof fn lei_receptores_distintos(i: nat, j: nat)
    requires
        i != j,
    ensures
        nome_do_receptor(i) != nome_do_receptor(j),
{
    lei_numerais_distintos(i, j);
    let p = "recv-"@;
    assert((p + digitos(i)).skip(p.len() as int) =~= digitos(i));
    assert((p + digitos(j)).skip(p.len() as int) =~= digitos(j));
}

proof fn lemma_sem_falha(gs: Seq<Gerador>, i: int, k: int)
    requires
        0 <= i <= k < gs.len(),
        primeira_falha(gs, i) is None,
    ensures
        falha_do_gerador(gs, k) is None,
    decreases k - i,
{
    if i < k {
        lemma_sem_falha(gs, i + 1, k);
    }
}

/// Numa configuração válida todo gerador do plano tem um nome de 1 a 16 caracteres permitidos,
/// ao menos uma thread, e mensagens em que os campos de medição cabem.
pub proof fn lei_plano_valido(cfg: Config, i: int)
    requires
        cfg.validacao() is Ok,
        0 <= i < cfg.plano_resolvido().len(),
    ensures
        nome_permitido(cfg.plano_resolvido()[i].nome@),
        1 <= cfg.plano_resolvido()[i].nome@.len() <= NOME_MAXIMO,
        cfg.plano_resolvido()[i].threads >= 1,
        cfg.plano_resolvido()[i].tamanho_mensagem >= TAMANHO_MINIMO,
{
    let gs = cfg.geradores@;
    lemma_sem_falha(gs, 0, i);
    let nome = gs[i].nome@;
    assert(is_ascii_chars(nome)) by {
        assert forall|k: int| 0 <= k < nome.len() implies '\0' <= #[trigger] nome[k] <= '\u{7f}' by {
            assert(permitido(nome[k]));
        }
    }
    is_ascii_chars_encode_utf8(nome);
    if nome.len() == 0 {
        assert(aparado(nome) =~= nome);
    }
}

/// Numa configuração válida os containers dos geradores têm nomes diferentes.
pub proof fn lei_containers_distintos(cfg: Config, i: int, j: int)
    requires
        cfg.validacao() is Ok,
        0 <= i < j < cfg.plano_resolvido().len(),
    ensures
        cfg.plano_resolvido()[i].nome_do_container()
            != cfg.plano_resolvido()[j].nome_do_container(),
{
    let gs = cfg.geradores@;
    lemma_sem_falha(gs, 0, j);
    assert(!nome_repetido(gs, j));
    assert(gs[i].nome@ != gs[j].nome@);
    let p = "hsb-"@ + "gen-"@;
    let a = cfg.plano_resolvido()[i];
    let b = cfg.plano_resolvido()[j];
    assert(a.nome_do_container().skip(p.len() as int) =~= gs[i].nome@);
    assert(b.nome_do_container().skip(p.len() as int) =~= gs[j].nome@);
}

/// Um gerador com taxa própria a mantém, e não entra na repartição.
pub proof fn lei_taxa_propria(cfg: Config, i: int)
    requires
        0 <= i < cfg.plano_resolvido().len(),
        cfg.geradores@[i].taxa is Some,
    ensures
        cfg.plano_resolvido()[i].taxa == cfg.geradores@[i].taxa->0,
        cfg.plano_resolvido()[i].fatia == Real::do_inteiro(0),
        soma_dos_pesos(cfg.geradores@, i + 1) == soma_dos_pesos(cfg.geradores@, i),
{
}

} // verus!
