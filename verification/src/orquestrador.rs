//! Ciclo de vida do teste: sobe a rede, os receptores, o relay e os geradores,
//! espera, drena as filas, derruba tudo e monta o relatório.

use vstd::prelude::*;
use vstd::string::*;

use crate::config::{nome_do_receptor, nome_receptor, Config, GeradorPlano, ModoTls, PREFIXO};
use crate::decimal::digitos;
use crate::duracao::Duracao;
use crate::json::{
    inteiro_do_membro, ler_inteiro, ler_numero, ler_objeto, ler_real, membros, numero_do_membro,
    objeto_lido, real_do_membro, Escalar, EscalarVisto,
};
use crate::metricas::{Agregado, Conferencia};
use crate::numerais::{escrever, escrito};
use crate::podman::{
    args_das_montagens, args_de_subir, argumentos, lista, montagem, parar, rede_remover, remover, subir,
    textos, Montagem,
};
use crate::reais::Real;
use crate::relatorio::{
    com_milhares, dec, em_decimal, imprimir_tabelas, montar_json, num, resumir, resumo_de, tabelas,
    EnvioGerador, Relatorio,
};
use crate::rsyslog::{
    conf_do_receptor, conf_receptor, conf_relay, entrada_do_relay, saida_do_relay, PORTA_ENTRADA,
    PORTA_TLS,
};
use crate::tabela::{inserido, Tabela};
use crate::texto::{
    aparado, aparar, comeca, contem, contem_trecho, decimal, decimal_com_sinal, inteiro_decimal,
};

verus! {

/// A rede em que os containers se falam.
pub const REDE: &'static str = "hugesyslogs-rede";

/// A imagem usada quando nenhuma é pedida.
pub const IMAGEM_PADRAO: &'static str = "localhost/hugesyslogs:latest";

// ---- Diretórios ----

/// O caminho `nome` a partir de `base`.
pub open spec fn caminho(base: Seq<char>, nome: Seq<char>) -> Seq<char> {
    if nome.len() > 0 && nome[0] == '/' {
        nome
    } else if base.len() == 0 || base.last() == '/' {
        base + nome
    } else {
        base + "/"@ + nome
    }
}

/// O caminho `nome` a partir de `base`.
pub fn juntar(base: &str, nome: &str) -> (r: String)
    ensures
        r@ == caminho(base@, nome@),
{
    let n = nome.unicode_len();
    if n > 0 && nome.get_char(0) == '/' {
        return nome.to_owned();
    }
    let b = base.unicode_len();
    let mut r = base.to_owned();
    if b > 0 && base.get_char(b - 1) != '/' {
        r.append("/");
    }
    r.append(nome);
    r
}

/// Estrutura de diretórios de uma execução.
pub struct Execucao {
    pub id: String,
    pub raiz: String,
    pub conf: String,
    pub certs: String,
    pub out: String,
}

impl Execucao {
    /// Se os diretórios são os da execução `id` sob `base`.
    pub open spec fn fica_em(self, base: Seq<char>) -> bool {
        &&& self.raiz@ == caminho(base, self.id@)
        &&& self.conf@ == caminho(self.raiz@, "conf"@)
        &&& self.certs@ == caminho(self.raiz@, "certs"@)
        &&& self.out@ == caminho(self.raiz@, "out"@)
    }

    /// Os diretórios da execução `id`.
    pub fn com_id(base: &str, id: String) -> (r: Execucao)
        ensures
            r.id == id,
            r.fica_em(base@),
    {
        let raiz = juntar(base, id.as_str());
        let conf = juntar(raiz.as_str(), "conf");
        let certs = juntar(raiz.as_str(), "certs");
        let out = juntar(raiz.as_str(), "out");
        Execucao { id, raiz, conf, certs, out }
    }

    /// Os diretórios de uma execução que começa agora, identificada pela hora local. Ficam sempre
    /// sob `base`: a identificação nunca é um caminho absoluto.
    pub fn criar(base: &str) -> (r: Execucao)
        ensures
            r.fica_em(base@),
            eh_hora(r.id@),
            comeca(r.raiz@, base@),
    {
        let id = hora_local("%Y-%m-%d_%H%M%S");
        proof {
            assert(da_hora(id@[0]));
        }
        let r = Execucao::com_id(base, id);
        proof {
            assert(r.raiz@.take(base@.len() as int) =~= base@);
        }
        r
    }

    /// Os diretórios a criar, na ordem.
    pub fn diretorios(&self) -> (r: Vec<String>)
        ensures
            textos(r@) == seq![self.raiz@, self.conf@, self.certs@, self.out@],
    {
        let r = lista(
            &[self.raiz.as_str(), self.conf.as_str(), self.certs.as_str(), self.out.as_str()],
        );
        proof {
            assert(textos(r@) =~= seq![self.raiz@, self.conf@, self.certs@, self.out@]);
        }
        r
    }
}

/// Se o caractere pode estar na hora que identifica uma execução.
pub open spec fn da_hora(c: char) -> bool {
    '0' <= c <= '9' || c == '-' || c == '_' || c == '+'
}

/// Se o texto tem o tamanho e os caracteres de uma hora que identifica uma execução.
pub open spec fn eh_hora(s: Seq<char>) -> bool {
    &&& s.len() >= 17
    &&& forall|i: int| 0 <= i < s.len() ==> da_hora(#[trigger] s[i])
}

/// `chrono::Local::now` e `chrono::DateTime::format`: a hora local nesse formato. São ao menos 17
/// caracteres, todos algarismos, `-`, `_` ou o sinal de um ano fora dos quatro algarismos. Qual é a
/// hora depende do relógio e do fuso da máquina.
#[verifier::external_body]
fn hora_local(formato: &str) -> (r: String)
    requires
        formato@ == "%Y-%m-%d_%H%M%S"@,
    ensures
        eh_hora(r@),
{
    chrono::Local::now().format(formato).to_string()
}

// ---- Comandos dos containers ----

/// O comando que roda o rsyslog com essa configuração.
pub open spec fn args_do_rsyslog(conf: Seq<char>) -> Seq<Seq<char>> {
    seq!["rsyslogd"@, "-n"@, "-f"@, conf, "-i"@, "NONE"@]
}

/// O comando que roda o rsyslog com essa configuração.
pub fn comando_rsyslog(conf: &str) -> (r: Vec<String>)
    ensures
        textos(r@) == args_do_rsyslog(conf@),
{
    let r = lista(&["rsyslogd", "-n", "-f", conf, "-i", "NONE"]);
    proof {
        assert(textos(r@) =~= args_do_rsyslog(conf@));
    }
    r
}

/// Quem é um gerador do plano e com quem fala.
pub open spec fn args_da_identidade(p: GeradorPlano) -> Seq<Seq<char>> {
    seq![
        "hugesyslogs"@,
        "gerar"@,
        "--nome"@,
        p.nome@,
        "--proto"@,
        p.proto.escrito(),
        "--alvo"@,
        "relay:"@ + digitos(PORTA_ENTRADA as nat),
    ]
}

/// A carga de um gerador do plano.
pub open spec fn args_da_carga(p: GeradorPlano) -> Seq<Seq<char>> {
    seq![
        "--taxa"@,
        digitos(p.taxa as nat),
        "--threads"@,
        digitos(p.threads as nat),
        "--tamanho"@,
        digitos(p.tamanho_mensagem as nat),
    ]
}

/// Os limites do teste, e onde o gerador deixa o seu relatório.
pub open spec fn args_do_teste(cfg: Config) -> Seq<Seq<char>> {
    seq![
        "--duracao"@,
        escrito(cfg.teste.duracao.segundos_reais(), 3, false),
        "--aquecimento"@,
        escrito(cfg.teste.aquecimento.segundos_reais(), 3, false),
        "--total"@,
        digitos(cfg.teste.total_mensagens as nat),
        "--saida"@,
        "/out"@,
    ]
}

/// O comando que roda um gerador do plano.
pub open spec fn args_do_gerador(cfg: Config, p: GeradorPlano) -> Seq<Seq<char>> {
    args_da_identidade(p) + args_da_carga(p) + args_do_teste(cfg)
}

fn listar_identidade(p: &GeradorPlano) -> (r: Vec<String>)
    ensures
        textos(r@) == args_da_identidade(*p),
{
    let mut alvo = "relay:".to_owned();
    alvo.append(decimal(PORTA_ENTRADA as u128).as_str());
    let r = lista(
        &[
            "hugesyslogs",
            "gerar",
            "--nome",
            p.nome.as_str(),
            "--proto",
            p.proto.texto(),
            "--alvo",
            alvo.as_str(),
        ],
    );
    proof {
        assert(textos(r@) =~= args_da_identidade(*p));
    }
    r
}

fn listar_carga(p: &GeradorPlano) -> (r: Vec<String>)
    ensures
        textos(r@) == args_da_carga(*p),
{
    let taxa = decimal(p.taxa as u128);
    let threads = decimal(p.threads as u128);
    let tamanho = decimal(p.tamanho_mensagem as u128);
    let r = lista(
        &[
            "--taxa",
            taxa.as_str(),
            "--threads",
            threads.as_str(),
            "--tamanho",
            tamanho.as_str(),
        ],
    );
    proof {
        assert(textos(r@) =~= args_da_carga(*p));
    }
    r
}

fn listar_teste(cfg: &Config) -> (r: Vec<String>)
    ensures
        textos(r@) == args_do_teste(*cfg),
{
    let duracao = escrever(cfg.teste.duracao.em_segundos(), 3, false);
    let aquecimento = escrever(cfg.teste.aquecimento.em_segundos(), 3, false);
    let total = decimal(cfg.teste.total_mensagens as u128);
    let r = lista(
        &[
            "--duracao",
            duracao.as_str(),
            "--aquecimento",
            aquecimento.as_str(),
            "--total",
            total.as_str(),
            "--saida",
            "/out",
        ],
    );
    proof {
        assert(textos(r@) =~= args_do_teste(*cfg));
    }
    r
}

/// Uma lista de textos seguida de outra.
fn juntar_listas(a: Vec<String>, b: Vec<String>) -> (r: Vec<String>)
    ensures
        textos(r@) == textos(a@) + textos(b@),
{
    let mut r = a;
    let mut fim = b;
    r.append(&mut fim);
    proof {
        assert(textos(r@) =~= textos(a@) + textos(b@));
    }
    r
}

/// O comando que roda um gerador do plano.
pub fn comando_gerador(cfg: &Config, p: &GeradorPlano) -> (r: Vec<String>)
    ensures
        textos(r@) == args_do_gerador(*cfg, *p),
{
    juntar_listas(juntar_listas(listar_identidade(p), listar_carga(p)), listar_teste(cfg))
}

// ---- Configurações ----

/// Um arquivo a gravar.
pub struct Arquivo {
    pub caminho: String,
    pub conteudo: String,
}

/// Uma configuração a submeter ao rsyslogd, e como.
pub struct Validacao {
    pub arquivo: String,
    pub comando: Vec<String>,
}

/// O que fazer para gerar e validar as configurações.
pub struct Configuracoes {
    /// Os arquivos a gravar.
    pub arquivos: Vec<Arquivo>,
    /// O aviso de que a validação fica para depois, sem a imagem.
    pub adiada: Option<String>,
    /// Se é preciso gerar antes o certificado.
    pub gerar_certificado: bool,
    /// As validações, na ordem.
    pub validacoes: Vec<Validacao>,
}

/// O nome do arquivo de configuração do receptor `i`.
pub open spec fn arquivo_do_receptor(i: nat) -> Seq<char> {
    nome_do_receptor(i) + ".conf"@
}

fn arquivo_receptor(i: usize) -> (r: String)
    ensures
        r@ == arquivo_do_receptor(i as nat),
{
    let mut r = nome_receptor(i);
    r.append(".conf");
    r
}

/// O comando que valida um arquivo de configuração dentro da imagem.
pub open spec fn args_da_validacao(
    arquivo: Seq<char>,
    imagem: Seq<char>,
    certs: Option<Seq<char>>,
) -> Seq<Seq<char>> {
    let montagens = match certs {
        Some(d) => seq![
            montagem(arquivo, "/tmp/teste.conf"@, true),
            montagem(d, "/etc/hsb/certs"@, true),
        ],
        None => seq![montagem(arquivo, "/tmp/teste.conf"@, true)],
    };
    seq!["run"@, "--rm"@] + args_das_montagens(montagens) + seq![
        imagem,
        "rsyslogd"@,
        "-N1"@,
        "-f"@,
        "/tmp/teste.conf"@,
    ]
}

fn comando_validacao(arquivo: &str, imagem: &str, certs: Option<&str>) -> (r: Vec<String>)
    ensures
        textos(r@) == args_da_validacao(
            arquivo@,
            imagem@,
            match certs {
                Some(d) => Some(d@),
                None => None,
            },
        ),
{
    let conf = Montagem::leitura(arquivo, "/tmp/teste.conf").como_arg();
    proof {
        reveal_with_fuel(args_das_montagens, 3);
    }
    match certs {
        Some(d) => {
            let cert = Montagem::leitura(d, "/etc/hsb/certs").como_arg();
            let r = lista(
                &[
                    "run",
                    "--rm",
                    "-v",
                    conf.as_str(),
                    "-v",
                    cert.as_str(),
                    imagem,
                    "rsyslogd",
                    "-N1",
                    "-f",
                    "/tmp/teste.conf",
                ],
            );
            proof {
                let ms = seq![conf@, cert@];
                assert(ms.drop_last() =~= seq![conf@]);
                assert(seq![conf@].drop_last() =~= Seq::<Seq<char>>::empty());
                assert(args_das_montagens(ms) =~= seq!["-v"@, conf@, "-v"@, cert@]);
                assert(textos(r@) =~= args_da_validacao(arquivo@, imagem@, Some(d@)));
            }
            r
        },
        None => {
            let r = lista(
                &[
                    "run",
                    "--rm",
                    "-v",
                    conf.as_str(),
                    imagem,
                    "rsyslogd",
                    "-N1",
                    "-f",
                    "/tmp/teste.conf",
                ],
            );
            proof {
                assert(seq![conf@].drop_last() =~= Seq::<Seq<char>>::empty());
                assert(args_das_montagens(seq![conf@]) =~= seq!["-v"@, conf@]);
                assert(textos(r@) =~= args_da_validacao(arquivo@, imagem@, None));
            }
            r
        },
    }
}

fn gerar_arquivos(cfg: &Config, exec: &Execucao) -> (r: Vec<Arquivo>)
    ensures
        r@.len() == cfg.receptores.quantidade + 1,
        r@[0].caminho@ == caminho(exec.conf@, "relay.conf"@),
        r@[0].conteudo@ == entrada_do_relay(cfg.tls.modo) + saida_do_relay(*cfg),
        forall|i: int|
            1 <= i < r@.len() ==> (#[trigger] r@[i]).caminho@ == caminho(
                exec.conf@,
                arquivo_do_receptor(i as nat),
            ) && r@[i].conteudo@ == conf_do_receptor(*cfg, i as usize),
{
    let mut r: Vec<Arquivo> = Vec::new();
    let relay = Arquivo {
        caminho: juntar(exec.conf.as_str(), "relay.conf"),
        conteudo: conf_relay(cfg),
    };
    r.push(relay);
    let n = cfg.receptores.quantidade;
    let mut i: usize = 0;
    while i < n
        invariant
            i <= n,
            n == cfg.receptores.quantidade,
            r@.len() == i + 1,
            r@[0].caminho@ == caminho(exec.conf@, "relay.conf"@),
            r@[0].conteudo@ == entrada_do_relay(cfg.tls.modo) + saida_do_relay(*cfg),
            forall|j: int|
                1 <= j < r@.len() ==> (#[trigger] r@[j]).caminho@ == caminho(
                    exec.conf@,
                    arquivo_do_receptor(j as nat),
                ) && r@[j].conteudo@ == conf_do_receptor(*cfg, j as usize),
        decreases n - i,
    {
        i = i + 1;
        r.push(
            Arquivo {
                caminho: juntar(exec.conf.as_str(), arquivo_receptor(i).as_str()),
                conteudo: conf_receptor(cfg, i),
            },
        );
    }
    r
}

/// Se é a validação desse arquivo.
pub open spec fn valida_o_arquivo(
    v: Validacao,
    cfg: Config,
    exec: Execucao,
    imagem: Seq<char>,
    arquivo: Seq<char>,
) -> bool {
    &&& v.arquivo@ == arquivo
    &&& textos(v.comando@) == args_da_validacao(
        caminho(exec.conf@, arquivo),
        imagem,
        if cfg.tls.modo == ModoTls::Certvalid {
            Some(exec.certs@)
        } else {
            None
        },
    )
}

fn validar_arquivo(cfg: &Config, exec: &Execucao, imagem: &str, arquivo: &str) -> (v: Validacao)
    ensures
        valida_o_arquivo(v, *cfg, *exec, imagem@, arquivo@),
{
    let onde = juntar(exec.conf.as_str(), arquivo);
    let certs = match cfg.tls.modo {
        ModoTls::Anon => None,
        ModoTls::Certvalid => Some(exec.certs.as_str()),
    };
    Validacao {
        arquivo: arquivo.to_owned(),
        comando: comando_validacao(onde.as_str(), imagem, certs),
    }
}

/// Gera as configurações rsyslog e diz como submetê-las a `rsyslogd -N1` dentro da imagem.
///
/// Basta validar o relay e um receptor: os demais são idênticos a menos do índice. O rsyslogd
/// checa o acesso aos arquivos de certificado já na validação, então eles precisam existir e estar
/// montados também aqui.
pub fn gerar_e_validar_confs(
    cfg: &Config,
    exec: &Execucao,
    imagem: &str,
    imagem_existe: bool,
    tem_certificado: bool,
) -> (r: Configuracoes)
    ensures
        r.arquivos@.len() == cfg.receptores.quantidade + 1,
        r.arquivos@[0].caminho@ == caminho(exec.conf@, "relay.conf"@),
        r.arquivos@[0].conteudo@ == entrada_do_relay(cfg.tls.modo) + saida_do_relay(*cfg),
        forall|i: int|
            1 <= i < r.arquivos@.len() ==> (#[trigger] r.arquivos@[i]).caminho@ == caminho(
                exec.conf@,
                arquivo_do_receptor(i as nat),
            ) && r.arquivos@[i].conteudo@ == conf_do_receptor(*cfg, i as usize),
        imagem_existe ==> r.adiada is None,
        !imagem_existe ==> r.adiada is Some && r.adiada->0@ == "  · imagem "@ + imagem@
            + " ainda não existe — validação do rsyslog adiada (rode 'hugesyslogs imagem')"@,
        r.gerar_certificado == (imagem_existe && cfg.tls.modo == ModoTls::Certvalid
            && !tem_certificado),
        !imagem_existe ==> r.validacoes@.len() == 0,
        imagem_existe ==> r.validacoes@.len() == 2 && valida_o_arquivo(
            r.validacoes@[0],
            *cfg,
            *exec,
            imagem@,
            "relay.conf"@,
        ) && valida_o_arquivo(r.validacoes@[1], *cfg, *exec, imagem@, "recv-1.conf"@),
{
    let arquivos = gerar_arquivos(cfg, exec);
    if !imagem_existe {
        let mut aviso = "  · imagem ".to_owned();
        aviso.append(imagem);
        aviso.append(
            " ainda não existe — validação do rsyslog adiada (rode 'hugesyslogs imagem')",
        );
        return Configuracoes {
            arquivos,
            adiada: Some(aviso),
            gerar_certificado: false,
            validacoes: Vec::new(),
        };
    }
    let mut validacoes: Vec<Validacao> = Vec::new();
    validacoes.push(validar_arquivo(cfg, exec, imagem, "relay.conf"));
    validacoes.push(validar_arquivo(cfg, exec, imagem, "recv-1.conf"));
    Configuracoes {
        arquivos,
        adiada: None,
        gerar_certificado: matches!(cfg.tls.modo, ModoTls::Certvalid) && !tem_certificado,
        validacoes,
    }
}

/// O que se diz da resposta do rsyslogd a uma validação: ele pode sair com sucesso e ainda assim
/// acusar erros.
pub fn avaliar_validacao(arquivo: &str, sucesso: bool, texto: &str) -> (r: Result<String, String>)
    ensures
        match r {
            Ok(m) => sucesso && !contem(texto@, "error"@) && m@ == "  · "@ + arquivo@
                + " validada pelo rsyslogd"@,
            Err(m) => (!sucesso || contem(texto@, "error"@)) && m@ == "a configuração "@ + arquivo@
                + " não passou no rsyslogd -N1:\n"@ + texto@,
        },
{
    if !sucesso || contem_trecho(texto, "error") {
        let mut m = "a configuração ".to_owned();
        m.append(arquivo);
        m.append(" não passou no rsyslogd -N1:\n");
        m.append(texto);
        Err(m)
    } else {
        let mut m = "  · ".to_owned();
        m.append(arquivo);
        m.append(" validada pelo rsyslogd");
        Ok(m)
    }
}

// ---- Ciclo ----

/// Esperar um container abrir uma porta.
pub struct EsperaDaPorta {
    pub container: String,
    pub porta: u16,
    pub udp: bool,
    pub limite: Duracao,
    /// O que se espera, para a mensagem de erro.
    pub oque: String,
}

/// Uma ação do ciclo de um teste. A primeira que falha encerra o ciclo.
pub enum Acao {
    /// Mostra uma linha ao usuário.
    Anunciar(String),
    ChecarInterrupcao,
    CriarRede,
    GerarCertificado,
    ValidarConfs,
    /// Sobe um container com esses argumentos do podman.
    Subir(Vec<String>),
    EsperarPorta(EsperaDaPorta),
    /// Espera os geradores terminarem.
    AguardarGeradores { limite: Duracao },
    /// Espera as filas esvaziarem; uma interrupção só encurta a espera.
    Drenar(Duracao),
    /// Para um container com esses argumentos do podman.
    Parar(Vec<String>),
    /// Espera o que ainda está em buffer chegar ao disco.
    Assentar(Duracao),
    Relatar,
}

pub enum AcaoVista {
    Anunciar(Seq<char>),
    ChecarInterrupcao,
    CriarRede,
    GerarCertificado,
    ValidarConfs,
    Subir(Seq<Seq<char>>),
    EsperarPorta { container: Seq<char>, porta: u16, udp: bool, limite: nat, oque: Seq<char> },
    AguardarGeradores { limite: nat },
    Drenar(nat),
    Parar(Seq<Seq<char>>),
    Assentar(nat),
    Relatar,
}

impl View for Acao {
    type V = AcaoVista;

    open spec fn view(&self) -> AcaoVista {
        match *self {
            Acao::Anunciar(s) => AcaoVista::Anunciar(s@),
            Acao::ChecarInterrupcao => AcaoVista::ChecarInterrupcao,
            Acao::CriarRede => AcaoVista::CriarRede,
            Acao::GerarCertificado => AcaoVista::GerarCertificado,
            Acao::ValidarConfs => AcaoVista::ValidarConfs,
            Acao::Subir(args) => AcaoVista::Subir(textos(args@)),
            Acao::EsperarPorta(e) => AcaoVista::EsperarPorta {
                container: e.container@,
                porta: e.porta,
                udp: e.udp,
                limite: e.limite.total(),
                oque: e.oque@,
            },
            Acao::AguardarGeradores { limite } => AcaoVista::AguardarGeradores {
                limite: limite.total(),
            },
            Acao::Drenar(d) => AcaoVista::Drenar(d.total()),
            Acao::Parar(args) => AcaoVista::Parar(textos(args@)),
            Acao::Assentar(d) => AcaoVista::Assentar(d.total()),
            Acao::Relatar => AcaoVista::Relatar,
        }
    }
}

/// As ações de uma lista.
pub open spec fn vistas(v: Seq<Acao>) -> Seq<AcaoVista> {
    v.map_values(|a: Acao| a@)
}

/// Segundos em nanossegundos.
pub open spec fn segundos(n: nat) -> nat {
    n * 1_000_000_000
}

fn acrescentar(v: &mut Vec<Acao>, a: Acao)
    ensures
        vistas(final(v)@) == vistas(old(v)@).push(a@),
{
    v.push(a);
    proof {
        assert(vistas(v@) =~= vistas(old(v)@).push(a@));
    }
}

fn anunciar(v: &mut Vec<Acao>, s: &str)
    ensures
        vistas(final(v)@) == vistas(old(v)@).push(AcaoVista::Anunciar(s@)),
{
    acrescentar(v, Acao::Anunciar(s.to_owned()));
}

/// A rede, o certificado e as configurações.
pub open spec fn acoes_iniciais(modo: ModoTls) -> Seq<AcaoVista> {
    let certificado = match modo {
        ModoTls::Certvalid => seq![
            AcaoVista::GerarCertificado,
            AcaoVista::Anunciar("  · certificado self-signed gerado"@),
        ],
        ModoTls::Anon => seq![
            AcaoVista::Anunciar("  · modo anon: nenhum certificado necessário"@),
        ],
    };
    seq![
        AcaoVista::Anunciar("\n[1/8] Criando a rede "@ + "hugesyslogs-rede"@ + "..."@),
        AcaoVista::CriarRede,
        AcaoVista::ChecarInterrupcao,
        AcaoVista::Anunciar("[2/8] Certificado ("@ + modo.escrito() + ")..."@),
    ] + certificado + seq![
        AcaoVista::ChecarInterrupcao,
        AcaoVista::Anunciar("[3/8] Gerando e validando as configurações rsyslog..."@),
        AcaoVista::ValidarConfs,
        AcaoVista::ChecarInterrupcao,
    ]
}

fn iniciar(modo: ModoTls) -> (v: Vec<Acao>)
    ensures
        vistas(v@) == acoes_iniciais(modo),
{
    let mut v: Vec<Acao> = Vec::new();
    let mut rede = "\n[1/8] Criando a rede ".to_owned();
    rede.append(REDE);
    rede.append("...");
    anunciar(&mut v, rede.as_str());
    acrescentar(&mut v, Acao::CriarRede);
    acrescentar(&mut v, Acao::ChecarInterrupcao);
    let mut certificado = "[2/8] Certificado (".to_owned();
    certificado.append(modo.texto());
    certificado.append(")...");
    anunciar(&mut v, certificado.as_str());
    match modo {
        ModoTls::Certvalid => {
            acrescentar(&mut v, Acao::GerarCertificado);
            anunciar(&mut v, "  · certificado self-signed gerado");
        },
        ModoTls::Anon => {
            anunciar(&mut v, "  · modo anon: nenhum certificado necessário");
        },
    }
    acrescentar(&mut v, Acao::ChecarInterrupcao);
    anunciar(&mut v, "[3/8] Gerando e validando as configurações rsyslog...");
    acrescentar(&mut v, Acao::ValidarConfs);
    acrescentar(&mut v, Acao::ChecarInterrupcao);
    proof {
        assert(vistas(v@) =~= acoes_iniciais(modo));
    }
    v
}

/// As montagens de um container do rsyslog.
pub open spec fn montagens_do_rsyslog(
    modo: ModoTls,
    exec: Execucao,
    arquivo: Seq<char>,
    destino: Seq<char>,
) -> Seq<Seq<char>> {
    let conf = montagem(caminho(exec.conf@, arquivo), destino, true);
    let out = montagem(exec.out@, "/out"@, false);
    match modo {
        ModoTls::Certvalid => seq![conf, out, montagem(exec.certs@, "/etc/hsb/certs"@, true)],
        ModoTls::Anon => seq![conf, out],
    }
}

fn montar_rsyslog(modo: ModoTls, exec: &Execucao, arquivo: &str, destino: &str) -> (r: Vec<Montagem>)
    ensures
        argumentos(r@) == montagens_do_rsyslog(modo, *exec, arquivo@, destino@),
{
    let mut r: Vec<Montagem> = Vec::new();
    r.push(Montagem::leitura(juntar(exec.conf.as_str(), arquivo).as_str(), destino));
    r.push(Montagem::escrita(exec.out.as_str(), "/out"));
    if matches!(modo, ModoTls::Certvalid) {
        r.push(Montagem::leitura(exec.certs.as_str(), "/etc/hsb/certs"));
    }
    proof {
        assert(argumentos(r@) =~= montagens_do_rsyslog(modo, *exec, arquivo@, destino@));
    }
    r
}

/// Sobe o receptor `i`.
pub open spec fn subir_receptor(
    modo: ModoTls,
    exec: Execucao,
    imagem: Seq<char>,
    i: nat,
) -> AcaoVista {
    AcaoVista::Subir(
        args_de_subir(
            "hsb-"@ + nome_do_receptor(i),
            imagem,
            "hugesyslogs-rede"@,
            nome_do_receptor(i),
            montagens_do_rsyslog(modo, exec, arquivo_do_receptor(i), "/etc/hsb/recv.conf"@),
            args_do_rsyslog("/etc/hsb/recv.conf"@),
        ),
    )
}

/// Espera o receptor `i` abrir a porta.
pub open spec fn esperar_receptor(i: nat) -> AcaoVista {
    AcaoVista::EsperarPorta {
        container: "hsb-"@ + nome_do_receptor(i),
        porta: PORTA_TLS,
        udp: false,
        limite: segundos(30),
        oque: "o receptor "@ + nome_do_receptor(i) + " abrir a porta TLS"@,
    }
}

/// Os receptores: todos sobem antes de se esperar pelo primeiro.
pub open spec fn acoes_dos_receptores(
    cfg: Config,
    exec: Execucao,
    imagem: Seq<char>,
) -> Seq<AcaoVista> {
    let n = cfg.receptores.quantidade as nat;
    seq![AcaoVista::Anunciar("[4/8] Subindo "@ + digitos(n) + " receptores..."@)] + Seq::new(
        n,
        |i: int| subir_receptor(cfg.tls.modo, exec, imagem, (i + 1) as nat),
    ) + Seq::new(n, |i: int| esperar_receptor((i + 1) as nat)) + seq![
        AcaoVista::Anunciar("  · todos os receptores escutando na porta TLS"@),
    ]
}

fn container_de(apelido: &str) -> (r: String)
    ensures
        r@ == "hsb-"@ + apelido@,
{
    let mut r = PREFIXO.to_owned();
    r.append(apelido);
    r
}

fn preparar_receptores(cfg: &Config, exec: &Execucao, imagem: &str) -> (v: Vec<Acao>)
    ensures
        vistas(v@) == acoes_dos_receptores(*cfg, *exec, imagem@),
{
    let n = cfg.receptores.quantidade;
    let mut v: Vec<Acao> = Vec::new();
    let mut titulo = "[4/8] Subindo ".to_owned();
    titulo.append(decimal(n as u128).as_str());
    titulo.append(" receptores...");
    anunciar(&mut v, titulo.as_str());
    let ghost inicio = seq![
        AcaoVista::Anunciar("[4/8] Subindo "@ + digitos(n as nat) + " receptores..."@),
    ];
    let ghost subidas = Seq::new(
        n as nat,
        |i: int| subir_receptor(cfg.tls.modo, *exec, imagem@, (i + 1) as nat),
    );
    let ghost esperas = Seq::new(n as nat, |i: int| esperar_receptor((i + 1) as nat));
    proof {
        assert(vistas(v@) =~= inicio + subidas.take(0));
    }
    let mut i: usize = 0;
    while i < n
        invariant
            i <= n,
            n == cfg.receptores.quantidade,
            subidas == Seq::new(
                n as nat,
                |i: int| subir_receptor(cfg.tls.modo, *exec, imagem@, (i + 1) as nat),
            ),
            vistas(v@) == inicio + subidas.take(i as int),
        decreases n - i,
    {
        let ghost k = i as int;
        i = i + 1;
        let apelido = nome_receptor(i);
        let montagens = montar_rsyslog(
            cfg.tls.modo,
            exec,
            arquivo_receptor(i).as_str(),
            "/etc/hsb/recv.conf",
        );
        let args = subir(
            container_de(apelido.as_str()).as_str(),
            imagem,
            REDE,
            apelido.as_str(),
            &montagens,
            &comando_rsyslog("/etc/hsb/recv.conf"),
        );
        acrescentar(&mut v, Acao::Subir(args));
        proof {
            assert(subidas[k] == subir_receptor(cfg.tls.modo, *exec, imagem@, i as nat));
            assert(subidas.take(k + 1) =~= subidas.take(k).push(subidas[k]));
            assert(vistas(v@) =~= inicio + subidas.take(i as int));
        }
    }
    proof {
        assert(subidas.take(n as int) =~= subidas);
        assert(vistas(v@) =~= inicio + subidas + esperas.take(0));
    }
    i = 0;
    while i < n
        invariant
            i <= n,
            esperas == Seq::new(n as nat, |i: int| esperar_receptor((i + 1) as nat)),
            vistas(v@) == inicio + subidas + esperas.take(i as int),
        decreases n - i,
    {
        let ghost k = i as int;
        i = i + 1;
        let apelido = nome_receptor(i);
        let mut oque = "o receptor ".to_owned();
        oque.append(apelido.as_str());
        oque.append(" abrir a porta TLS");
        acrescentar(
            &mut v,
            Acao::EsperarPorta(
                EsperaDaPorta {
                    container: container_de(apelido.as_str()),
                    porta: PORTA_TLS,
                    udp: false,
                    limite: Duracao::de_segundos(30),
                    oque,
                },
            ),
        );
        proof {
            assert(esperas[k] == esperar_receptor(i as nat));
            assert(esperas.take(k + 1) =~= esperas.take(k).push(esperas[k]));
            assert(vistas(v@) =~= inicio + subidas + esperas.take(i as int));
        }
    }
    anunciar(&mut v, "  · todos os receptores escutando na porta TLS");
    proof {
        assert(esperas.take(n as int) =~= esperas);
        assert(vistas(v@) =~= acoes_dos_receptores(*cfg, *exec, imagem@));
    }
    v
}

/// Espera o relay abrir a porta de entrada.
pub open spec fn esperar_relay(udp: bool) -> AcaoVista {
    AcaoVista::EsperarPorta {
        container: "hsb-"@ + "relay"@,
        porta: PORTA_ENTRADA,
        udp,
        limite: segundos(30),
        oque: if udp {
            "o relay abrir a porta UDP de entrada"@
        } else {
            "o relay abrir a porta TCP de entrada"@
        },
    }
}

/// O relay.
pub open spec fn acoes_do_relay(modo: ModoTls, exec: Execucao, imagem: Seq<char>) -> Seq<AcaoVista> {
    seq![
        AcaoVista::Anunciar("[5/8] Subindo o relay..."@),
        AcaoVista::Subir(
            args_de_subir(
                "hsb-"@ + "relay"@,
                imagem,
                "hugesyslogs-rede"@,
                "relay"@,
                montagens_do_rsyslog(modo, exec, "relay.conf"@, "/etc/hsb/relay.conf"@),
                args_do_rsyslog("/etc/hsb/relay.conf"@),
            ),
        ),
        esperar_relay(false),
        esperar_relay(true),
        AcaoVista::Anunciar(
            "  · relay escutando em "@ + digitos(PORTA_ENTRADA as nat) + " (TCP e UDP)"@,
        ),
    ]
}

fn preparar_relay(modo: ModoTls, exec: &Execucao, imagem: &str) -> (v: Vec<Acao>)
    ensures
        vistas(v@) == acoes_do_relay(modo, *exec, imagem@),
{
    let mut v: Vec<Acao> = Vec::new();
    anunciar(&mut v, "[5/8] Subindo o relay...");
    let montagens = montar_rsyslog(modo, exec, "relay.conf", "/etc/hsb/relay.conf");
    let args = subir(
        container_de("relay").as_str(),
        imagem,
        REDE,
        "relay",
        &montagens,
        &comando_rsyslog("/etc/hsb/relay.conf"),
    );
    acrescentar(&mut v, Acao::Subir(args));
    let tcp = EsperaDaPorta {
        container: container_de("relay"),
        porta: PORTA_ENTRADA,
        udp: false,
        limite: Duracao::de_segundos(30),
        oque: "o relay abrir a porta TCP de entrada".to_owned(),
    };
    acrescentar(&mut v, Acao::EsperarPorta(tcp));
    let udp = EsperaDaPorta {
        container: container_de("relay"),
        porta: PORTA_ENTRADA,
        udp: true,
        limite: Duracao::de_segundos(30),
        oque: "o relay abrir a porta UDP de entrada".to_owned(),
    };
    acrescentar(&mut v, Acao::EsperarPorta(udp));
    let mut pronto = "  · relay escutando em ".to_owned();
    pronto.append(decimal(PORTA_ENTRADA as u128).as_str());
    pronto.append(" (TCP e UDP)");
    anunciar(&mut v, pronto.as_str());
    proof {
        assert(vistas(v@) =~= acoes_do_relay(modo, *exec, imagem@));
    }
    v
}

/// Sobe um gerador e o anuncia.
pub open spec fn acoes_do_gerador(
    cfg: Config,
    p: GeradorPlano,
    exec: Execucao,
    imagem: Seq<char>,
) -> Seq<AcaoVista> {
    seq![
        AcaoVista::Subir(
            args_de_subir(
                p.nome_do_container(),
                imagem,
                "hugesyslogs-rede"@,
                "gen-"@ + p.nome@,
                seq![montagem(exec.out@, "/out"@, false)],
                args_do_gerador(cfg, p),
            ),
        ),
        AcaoVista::Anunciar(
            "  · "@ + p.nome@ + " ("@ + p.proto.escrito() + ") a "@ + com_milhares(p.taxa)
                + " msg/s em "@ + digitos(p.threads as nat) + " thread(s)"@,
        ),
    ]
}

/// Os geradores, na ordem do plano.
pub open spec fn acoes_dos_geradores(
    cfg: Config,
    ps: Seq<GeradorPlano>,
    exec: Execucao,
    imagem: Seq<char>,
) -> Seq<AcaoVista>
    decreases ps.len(),
{
    if ps.len() == 0 {
        Seq::empty()
    } else {
        acoes_dos_geradores(cfg, ps.drop_last(), exec, imagem) + acoes_do_gerador(
            cfg,
            ps.last(),
            exec,
            imagem,
        )
    }
}

/// O anúncio de um gerador que subiu.
fn anuncio_do_gerador(p: &GeradorPlano) -> (m: String)
    ensures
        m@ == "  · "@ + p.nome@ + " ("@ + p.proto.escrito() + ") a "@ + com_milhares(p.taxa)
            + " msg/s em "@ + digitos(p.threads as nat) + " thread(s)"@,
{
    let mut m = "  · ".to_owned();
    m.append(p.nome.as_str());
    m.append(" (");
    m.append(p.proto.texto());
    m.append(") a ");
    m.append(num(p.taxa).as_str());
    m.append(" msg/s em ");
    m.append(decimal(p.threads as u128).as_str());
    m.append(" thread(s)");
    m
}

/// Os argumentos do podman que sobem um gerador.
fn subir_gerador(cfg: &Config, p: &GeradorPlano, exec: &Execucao, imagem: &str) -> (r: Vec<String>)
    ensures
        textos(r@) == args_de_subir(
            p.nome_do_container(),
            imagem@,
            "hugesyslogs-rede"@,
            "gen-"@ + p.nome@,
            seq![montagem(exec.out@, "/out"@, false)],
            args_do_gerador(*cfg, *p),
        ),
{
    let mut apelido = "gen-".to_owned();
    apelido.append(p.nome.as_str());
    let mut montagens: Vec<Montagem> = Vec::new();
    montagens.push(Montagem::escrita(exec.out.as_str(), "/out"));
    proof {
        assert(argumentos(montagens@) =~= seq![montagem(exec.out@, "/out"@, false)]);
    }
    subir(
        p.container().as_str(),
        imagem,
        REDE,
        apelido.as_str(),
        &montagens,
        &comando_gerador(cfg, p),
    )
}

fn preparar_gerador(cfg: &Config, p: &GeradorPlano, exec: &Execucao, imagem: &str) -> (v: Vec<Acao>)
    ensures
        vistas(v@) == acoes_do_gerador(*cfg, *p, *exec, imagem@),
{
    let mut v: Vec<Acao> = Vec::new();
    v.push(Acao::Subir(subir_gerador(cfg, p, exec, imagem)));
    v.push(Acao::Anunciar(anuncio_do_gerador(p)));
    proof {
        assert(vistas(v@) =~= acoes_do_gerador(*cfg, *p, *exec, imagem@));
    }
    v
}

fn preparar_geradores(cfg: &Config, plano: &Vec<GeradorPlano>, exec: &Execucao, imagem: &str) -> (v:
    Vec<Acao>)
    ensures
        vistas(v@) == acoes_dos_geradores(*cfg, plano@, *exec, imagem@),
{
    let mut v: Vec<Acao> = Vec::new();
    let mut i: usize = 0;
    proof {
        assert(vistas(v@) =~= Seq::<AcaoVista>::empty());
    }
    while i < plano.len()
        invariant
            i <= plano@.len(),
            vistas(v@) == acoes_dos_geradores(*cfg, plano@.take(i as int), *exec, imagem@),
        decreases plano@.len() - i,
    {
        estender(&mut v, preparar_gerador(cfg, &plano[i], exec, imagem));
        proof {
            let ate_aqui = plano@.take(i + 1);
            assert(ate_aqui.drop_last() =~= plano@.take(i as int));
            assert(ate_aqui.last() == plano@[i as int]);
        }
        i = i + 1;
    }
    proof {
        assert(plano@.take(plano@.len() as int) =~= plano@);
    }
    v
}

/// O tempo até que os geradores sejam dados por perdidos, em nanossegundos.
pub open spec fn limite_dos_geradores(cfg: Config) -> nat {
    cfg.teste.duracao.total() + cfg.teste.aquecimento.total() + segundos(60)
}

/// O maior tempo representável, em nanossegundos.
pub open spec fn tempo_maximo() -> nat {
    (u64::MAX * 1_000_000_000 + 999_999_999) as nat
}

/// O tempo até que os geradores sejam dados por perdidos; nada se não é representável.
pub fn calcular_limite(cfg: &Config) -> (r: Option<Duracao>)
    requires
        cfg.teste.duracao.normal(),
        cfg.teste.aquecimento.normal(),
    ensures
        match r {
            Some(d) => d.total() == limite_dos_geradores(*cfg) && d.normal(),
            None => limite_dos_geradores(*cfg) > tempo_maximo(),
        },
{
    match cfg.teste.duracao.mais(cfg.teste.aquecimento) {
        Some(d) => d.mais(Duracao::de_segundos(60)),
        None => None,
    }
}

/// Espera os geradores e as filas, e para o relay.
pub open spec fn acoes_ate_parar_o_relay(cfg: Config) -> Seq<AcaoVista> {
    seq![
        AcaoVista::Anunciar(
            "[7/8] Rodando por "@ + em_decimal(cfg.teste.duracao.segundos_reais(), 0)
                + "s (aquecimento "@ + em_decimal(cfg.teste.aquecimento.segundos_reais(), 0)
                + "s)..."@,
        ),
        AcaoVista::AguardarGeradores { limite: limite_dos_geradores(cfg) },
        AcaoVista::Anunciar(
            "  · geradores concluídos, drenando filas por "@ + em_decimal(
                cfg.teste.drenagem.segundos_reais(),
                0,
            ) + "s..."@,
        ),
        AcaoVista::Drenar(cfg.teste.drenagem.total()),
        AcaoVista::Anunciar("  · parando relay e receptores..."@),
        AcaoVista::Parar(seq!["stop"@, "-t"@, digitos(10), "hsb-"@ + "relay"@]),
    ]
}

/// Para os `n` receptores, na ordem.
pub open spec fn acoes_de_parar_receptores(n: nat) -> Seq<AcaoVista> {
    Seq::new(
        n,
        |i: int|
            AcaoVista::Parar(
                seq!["stop"@, "-t"@, digitos(10), "hsb-"@ + nome_do_receptor((i + 1) as nat)],
            ),
    )
}

/// Espera os geradores e as filas, para os containers e relata.
pub open spec fn acoes_finais(cfg: Config) -> Seq<AcaoVista> {
    acoes_ate_parar_o_relay(cfg) + acoes_de_parar_receptores(cfg.receptores.quantidade as nat)
        + seq![AcaoVista::Assentar(500_000_000), AcaoVista::Relatar]
}

fn parar_o_relay(cfg: &Config, limite: Duracao) -> (v: Vec<Acao>)
    requires
        limite.total() == limite_dos_geradores(*cfg),
    ensures
        vistas(v@) == acoes_ate_parar_o_relay(*cfg),
{
    let mut v: Vec<Acao> = Vec::new();
    let mut rodando = "[7/8] Rodando por ".to_owned();
    rodando.append(dec(cfg.teste.duracao.em_segundos(), 0).as_str());
    rodando.append("s (aquecimento ");
    rodando.append(dec(cfg.teste.aquecimento.em_segundos(), 0).as_str());
    rodando.append("s)...");
    anunciar(&mut v, rodando.as_str());
    acrescentar(&mut v, Acao::AguardarGeradores { limite });
    let mut drenando = "  · geradores concluídos, drenando filas por ".to_owned();
    drenando.append(dec(cfg.teste.drenagem.em_segundos(), 0).as_str());
    drenando.append("s...");
    anunciar(&mut v, drenando.as_str());
    acrescentar(&mut v, Acao::Drenar(cfg.teste.drenagem));
    anunciar(&mut v, "  · parando relay e receptores...");
    acrescentar(&mut v, Acao::Parar(parar(container_de("relay").as_str(), 10)));
    proof {
        assert(vistas(v@) =~= acoes_ate_parar_o_relay(*cfg));
    }
    v
}

fn parar_receptores(n: usize) -> (v: Vec<Acao>)
    ensures
        vistas(v@) == acoes_de_parar_receptores(n as nat),
{
    let ghost paradas = acoes_de_parar_receptores(n as nat);
    let mut v: Vec<Acao> = Vec::new();
    let mut i: usize = 0;
    proof {
        assert(vistas(v@) =~= paradas.take(0));
    }
    while i < n
        invariant
            i <= n,
            paradas == acoes_de_parar_receptores(n as nat),
            vistas(v@) == paradas.take(i as int),
        decreases n - i,
    {
        let ghost k = i as int;
        i = i + 1;
        acrescentar(
            &mut v,
            Acao::Parar(parar(container_de(nome_receptor(i).as_str()).as_str(), 10)),
        );
        proof {
            assert(paradas.take(k + 1) =~= paradas.take(k).push(paradas[k]));
        }
    }
    proof {
        assert(paradas.take(n as int) =~= paradas);
    }
    v
}

fn finalizar(cfg: &Config, limite: Duracao) -> (v: Vec<Acao>)
    requires
        limite.total() == limite_dos_geradores(*cfg),
    ensures
        vistas(v@) == acoes_finais(*cfg),
{
    let mut v = parar_o_relay(cfg, limite);
    estender(&mut v, parar_receptores(cfg.receptores.quantidade));
    let ghost antes = vistas(v@);
    acrescentar(&mut v, Acao::Assentar(Duracao::de_milis(500)));
    acrescentar(&mut v, Acao::Relatar);
    proof {
        assert(vistas(v@) =~= antes + seq![AcaoVista::Assentar(500_000_000), AcaoVista::Relatar]);
    }
    v
}

/// As ações do ciclo de um teste, na ordem.
pub open spec fn ciclo(
    cfg: Config,
    plano: Seq<GeradorPlano>,
    exec: Execucao,
    imagem: Seq<char>,
) -> Seq<AcaoVista> {
    acoes_iniciais(cfg.tls.modo) + acoes_dos_receptores(cfg, exec, imagem) + acoes_do_relay(
        cfg.tls.modo,
        exec,
        imagem,
    ) + seq![
        AcaoVista::Anunciar("[6/8] Subindo "@ + digitos(plano.len()) + " geradores..."@),
    ] + acoes_dos_geradores(cfg, plano, exec, imagem) + acoes_finais(cfg)
}

fn estender(v: &mut Vec<Acao>, outras: Vec<Acao>)
    ensures
        vistas(final(v)@) == vistas(old(v)@) + vistas(outras@),
{
    let mut fim = outras;
    v.append(&mut fim);
    proof {
        assert(vistas(v@) =~= vistas(old(v)@) + vistas(outras@));
    }
}

/// As ações do ciclo de um teste, na ordem.
pub fn rodar_ciclo(cfg: &Config, plano: &Vec<GeradorPlano>, exec: &Execucao, imagem: &str) -> (v: Vec<
    Acao,
>)
    requires
        cfg.teste.duracao.normal(),
        cfg.teste.aquecimento.normal(),
        limite_dos_geradores(*cfg) <= tempo_maximo(),
    ensures
        vistas(v@) == ciclo(*cfg, plano@, *exec, imagem@),
{
    let limite = calcular_limite(cfg).unwrap();
    let mut v = iniciar(cfg.tls.modo);
    estender(&mut v, preparar_receptores(cfg, exec, imagem));
    estender(&mut v, preparar_relay(cfg.tls.modo, exec, imagem));
    let mut titulo = "[6/8] Subindo ".to_owned();
    titulo.append(decimal(plano.len() as u128).as_str());
    titulo.append(" geradores...");
    anunciar(&mut v, titulo.as_str());
    proof {
        assert(vistas(v@) =~= acoes_iniciais(cfg.tls.modo) + acoes_dos_receptores(
            *cfg,
            *exec,
            imagem@,
        ) + acoes_do_relay(cfg.tls.modo, *exec, imagem@) + seq![
            AcaoVista::Anunciar("[6/8] Subindo "@ + digitos(plano@.len()) + " geradores..."@),
        ]);
    }
    estender(&mut v, preparar_geradores(cfg, plano, exec, imagem));
    estender(&mut v, finalizar(cfg, limite));
    v
}

/// A ação a fazer depois de `feitas` delas: a seguinte, ou nenhuma se a última falhou ou não há mais.
pub open spec fn acao_seguinte(quantas: nat, feitas: nat, falhou: bool) -> Option<nat> {
    if falhou || feitas >= quantas {
        None
    } else {
        Some(feitas)
    }
}

/// Diz qual é a próxima ação do ciclo, depois de `feitas` delas; a primeira que falha o encerra.
pub fn proxima_acao(acoes: &Vec<Acao>, feitas: usize, falhou: bool) -> (r: Option<usize>)
    requires
        feitas <= acoes@.len(),
    ensures
        r == (if falhou || feitas == acoes@.len() {
            None
        } else {
            Some(feitas)
        }),
        match r {
            Some(i) => acao_seguinte(acoes@.len(), feitas as nat, falhou) == Some(i as nat),
            None => acao_seguinte(acoes@.len(), feitas as nat, falhou) is None,
        },
{
    if falhou || feitas == acoes.len() {
        None
    } else {
        Some(feitas)
    }
}

/// Se a `k`-ésima ação feita era a seguinte, sabendo-se se a anterior falhou.
pub open spec fn feita_na_vez(quantas: nat, falhas: Seq<bool>, k: int) -> bool {
    acao_seguinte(quantas, k as nat, k > 0 && falhas[k - 1]) == Some(k as nat)
}

/// Se as primeiras ações do ciclo foram feitas cada uma na sua vez; `falhas` diz quais falharam.
pub open spec fn seguiu_o_ciclo(acoes: Seq<AcaoVista>, falhas: Seq<bool>) -> bool {
    forall|k: int| 0 <= k < falhas.len() ==> #[trigger] feita_na_vez(acoes.len(), falhas, k)
}

/// Nada se faz depois de uma falha: a que falhou é a última feita, e nenhum container sobe depois
/// dela.
pub proof fn lei_nada_depois_da_falha(acoes: Seq<AcaoVista>, falhas: Seq<bool>, k: int)
    requires
        seguiu_o_ciclo(acoes, falhas),
        0 <= k < falhas.len(),
        falhas[k],
    ensures
        falhas.len() == k + 1,
        forall|j: int|
            k < j < acoes.len() && (#[trigger] acoes[j]) is Subir ==> j >= falhas.len(),
        acao_seguinte(acoes.len(), falhas.len(), falhas.last()) is None,
{
    if falhas.len() > k + 1 {
        assert(feita_na_vez(acoes.len(), falhas, k + 1));
    }
}

/// Um ciclo que para sem que nenhuma ação tenha falhado foi feito inteiro.
pub proof fn lei_ciclo_completo(acoes: Seq<AcaoVista>, falhas: Seq<bool>)
    requires
        seguiu_o_ciclo(acoes, falhas),
        forall|k: int| 0 <= k < falhas.len() ==> !#[trigger] falhas[k],
        acao_seguinte(acoes.len(), falhas.len(), false) is None,
    ensures
        falhas.len() == acoes.len(),
{
    if falhas.len() > 0 {
        assert(feita_na_vez(acoes.len(), falhas, falhas.len() - 1));
    }
}

// ---- Esperas ----

/// A mensagem de uma execução interrompida.
pub fn mensagem_de_interrupcao() -> (r: &'static str)
    ensures
        r@ == "execução interrompida pelo usuário"@,
{
    "execução interrompida pelo usuário"
}

/// O que se soube durante a espera por uma porta.
#[derive(Clone, Copy)]
pub enum EventoDaEspera {
    /// Uma nova volta começa.
    Volta { decorrido: Duracao, interrompida: bool },
    /// Se o container está rodando.
    Rodando(bool),
    /// Se a porta está aberta.
    Escutando(bool),
}

/// O que fazer a seguir na espera por uma porta.
pub enum PassoDaEspera {
    ChecarContainer,
    ChecarPorta,
    Pronto,
    /// Dormir um pouco e começar outra volta.
    Dormir,
    Falhar(String),
}

pub enum PassoDaEsperaVisto {
    ChecarContainer,
    ChecarPorta,
    Pronto,
    Dormir,
    Falhar(Seq<char>),
}

impl View for PassoDaEspera {
    type V = PassoDaEsperaVisto;

    open spec fn view(&self) -> PassoDaEsperaVisto {
        match *self {
            PassoDaEspera::ChecarContainer => PassoDaEsperaVisto::ChecarContainer,
            PassoDaEspera::ChecarPorta => PassoDaEsperaVisto::ChecarPorta,
            PassoDaEspera::Pronto => PassoDaEsperaVisto::Pronto,
            PassoDaEspera::Dormir => PassoDaEsperaVisto::Dormir,
            PassoDaEspera::Falhar(m) => PassoDaEsperaVisto::Falhar(m@),
        }
    }
}

/// O passo seguinte da espera por uma porta: a cada volta, enquanto há tempo, o container tem de
/// estar rodando e a porta é sondada.
pub open spec fn passo_da_espera(e: EsperaDaPorta, evento: EventoDaEspera) -> PassoDaEsperaVisto {
    match evento {
        EventoDaEspera::Volta { decorrido, interrompida } => if decorrido.total()
            >= e.limite.total() {
            PassoDaEsperaVisto::Falhar(
                "tempo esgotado esperando "@ + e.oque@ + " (a porta "@ + digitos(e.porta as nat)
                    + " não abriu em "@ + escrito(e.limite.segundos_reais(), 0, false) + "s)"@,
            )
        } else if interrompida {
            PassoDaEsperaVisto::Falhar("execução interrompida pelo usuário"@)
        } else {
            PassoDaEsperaVisto::ChecarContainer
        },
        EventoDaEspera::Rodando(sim) => if sim {
            PassoDaEsperaVisto::ChecarPorta
        } else {
            PassoDaEsperaVisto::Falhar(
                "o container "@ + e.container@ + " morreu antes de abrir a porta "@ + digitos(
                    e.porta as nat,
                ),
            )
        },
        EventoDaEspera::Escutando(sim) => if sim {
            PassoDaEsperaVisto::Pronto
        } else {
            PassoDaEsperaVisto::Dormir
        },
    }
}

/// Espera o container abrir a porta, com limite de tempo: diz o passo seguinte a cada evento.
pub fn esperar_porta(e: &EsperaDaPorta, evento: EventoDaEspera) -> (r: PassoDaEspera)
    ensures
        r@ == passo_da_espera(*e, evento),
{
    match evento {
        EventoDaEspera::Volta { decorrido, interrompida } => {
            if decorrido.alcanca(e.limite) {
                let mut m = "tempo esgotado esperando ".to_owned();
                m.append(e.oque.as_str());
                m.append(" (a porta ");
                m.append(decimal(e.porta as u128).as_str());
                m.append(" não abriu em ");
                m.append(escrever(e.limite.em_segundos(), 0, false).as_str());
                m.append("s)");
                PassoDaEspera::Falhar(m)
            } else if interrompida {
                PassoDaEspera::Falhar(mensagem_de_interrupcao().to_owned())
            } else {
                PassoDaEspera::ChecarContainer
            }
        },
        EventoDaEspera::Rodando(sim) => if sim {
            PassoDaEspera::ChecarPorta
        } else {
            let mut m = "o container ".to_owned();
            m.append(e.container.as_str());
            m.append(" morreu antes de abrir a porta ");
            m.append(decimal(e.porta as u128).as_str());
            PassoDaEspera::Falhar(m)
        },
        EventoDaEspera::Escutando(sim) => if sim {
            PassoDaEspera::Pronto
        } else {
            PassoDaEspera::Dormir
        },
    }
}

/// O que se soube durante a espera pelos geradores.
#[derive(Clone, Copy)]
pub enum EventoDosGeradores {
    /// Uma nova volta começa.
    Volta { interrompida: bool },
    /// Quantos ainda rodam.
    Ativos { quantos: usize, decorrido: Duracao },
}

/// O que fazer a seguir na espera pelos geradores.
pub enum PassoDosGeradores {
    Contar,
    Concluidos,
    /// Dormir um pouco e começar outra volta.
    Dormir,
    Falhar(String),
}

pub enum PassoDosGeradoresVisto {
    Contar,
    Concluidos,
    Dormir,
    Falhar(Seq<char>),
}

impl View for PassoDosGeradores {
    type V = PassoDosGeradoresVisto;

    open spec fn view(&self) -> PassoDosGeradoresVisto {
        match *self {
            PassoDosGeradores::Contar => PassoDosGeradoresVisto::Contar,
            PassoDosGeradores::Concluidos => PassoDosGeradoresVisto::Concluidos,
            PassoDosGeradores::Dormir => PassoDosGeradoresVisto::Dormir,
            PassoDosGeradores::Falhar(m) => PassoDosGeradoresVisto::Falhar(m@),
        }
    }
}

/// O passo seguinte da espera pelos geradores: termina quando nenhum roda, e falha se algum passa
/// do limite.
pub open spec fn passo_dos_geradores(limite: Duracao, evento: EventoDosGeradores) -> PassoDosGeradoresVisto {
    match evento {
        EventoDosGeradores::Volta { interrompida } => if interrompida {
            PassoDosGeradoresVisto::Falhar("execução interrompida pelo usuário"@)
        } else {
            PassoDosGeradoresVisto::Contar
        },
        EventoDosGeradores::Ativos { quantos, decorrido } => if quantos == 0 {
            PassoDosGeradoresVisto::Concluidos
        } else if decorrido.total() > limite.total() {
            PassoDosGeradoresVisto::Falhar(
                "tempo esgotado: "@ + digitos(quantos as nat)
                    + " gerador(es) ainda rodando após o limite"@,
            )
        } else {
            PassoDosGeradoresVisto::Dormir
        },
    }
}

/// Espera os geradores terminarem, com limite de tempo: diz o passo seguinte a cada evento.
pub fn aguardar_geradores(limite: Duracao, evento: EventoDosGeradores) -> (r: PassoDosGeradores)
    ensures
        r@ == passo_dos_geradores(limite, evento),
{
    match evento {
        EventoDosGeradores::Volta { interrompida } => if interrompida {
            PassoDosGeradores::Falhar(mensagem_de_interrupcao().to_owned())
        } else {
            PassoDosGeradores::Contar
        },
        EventoDosGeradores::Ativos { quantos, decorrido } => {
            if quantos == 0 {
                PassoDosGeradores::Concluidos
            } else if !limite.alcanca(decorrido) {
                let mut m = "tempo esgotado: ".to_owned();
                m.append(decimal(quantos as u128).as_str());
                m.append(" gerador(es) ainda rodando após o limite");
                PassoDosGeradores::Falhar(m)
            } else {
                PassoDosGeradores::Dormir
            }
        },
    }
}

/// O código de um gerador que terminou com erro; um código desconhecido não é erro.
pub fn codigo_de_erro(codigo: Option<i64>) -> (r: Option<i64>)
    ensures
        r == match codigo {
            Some(c) => if c != 0 {
                Some(c)
            } else {
                None
            },
            None => None,
        },
{
    match codigo {
        Some(c) => if c != 0 {
            Some(c)
        } else {
            None
        },
        None => None,
    }
}

/// A mensagem de um gerador que terminou com erro.
pub fn falha_do_gerador(nome: &str, codigo: i64, logs: &str) -> (r: String)
    ensures
        r@ == "o gerador "@ + nome@ + " terminou com código "@ + inteiro_decimal(codigo as int)
            + ":\n"@ + aparado(logs@),
{
    let mut m = "o gerador ".to_owned();
    m.append(nome);
    m.append(" terminou com código ");
    m.append(decimal_com_sinal(codigo as i128).as_str());
    m.append(":\n");
    m.append(aparar(logs).as_str());
    m
}

/// Se uma espera que pode ser interrompida continua.
pub fn dormir_interrompivel(total: Duracao, decorrido: Duracao, interrompida: bool) -> (r: bool)
    ensures
        r == (decorrido.total() < total.total() && !interrompida),
{
    !decorrido.alcanca(total) && !interrompida
}

/// Anexa os logs do container à mensagem de erro, que sozinha diria pouco.
pub fn diagnosticar(erro: &str, container: &str, logs: &str) -> (r: String)
    ensures
        aparado(logs@).len() == 0 ==> r@ == erro@,
        aparado(logs@).len() > 0 ==> r@ == erro@ + "\n\n--- logs de "@ + container@ + " ---\n"@
            + aparado(logs@),
{
    let aparados = aparar(logs);
    let mut r = erro.to_owned();
    if aparados.as_str().unicode_len() > 0 {
        r.append("\n\n--- logs de ");
        r.append(container);
        r.append(" ---\n");
        r.append(aparados.as_str());
    }
    r
}

// ---- Execução ----

/// O que impede o teste de começar.
pub fn impedimento(podman_disponivel: bool, imagem_existe: bool, imagem: &str) -> (r: Option<String>)
    ensures
        match r {
            Some(m) => if !podman_disponivel {
                m@ == "o podman não está disponível no PATH"@
            } else {
                !imagem_existe && m@ == "a imagem "@ + imagem@
                    + " não existe — rode 'hugesyslogs imagem' primeiro"@
            },
            None => podman_disponivel && imagem_existe,
        },
{
    if !podman_disponivel {
        return Some("o podman não está disponível no PATH".to_owned());
    }
    if !imagem_existe {
        let mut m = "a imagem ".to_owned();
        m.append(imagem);
        m.append(" não existe — rode 'hugesyslogs imagem' primeiro");
        return Some(m);
    }
    None
}

/// Os comandos do podman de uma lista.
pub open spec fn comandos(v: Seq<Vec<String>>) -> Seq<Seq<Seq<char>>> {
    v.map_values(|c: Vec<String>| textos(c@))
}

/// Os comandos que removem os containers e a rede.
pub open spec fn comandos_de_limpeza(
    nomes: Seq<Seq<char>>,
    remover_rede: bool,
    rede_existe: bool,
) -> Seq<Seq<Seq<char>>> {
    let containers = nomes.map_values(|n: Seq<char>| seq!["rm"@, "-f"@, n]);
    if remover_rede && rede_existe {
        containers.push(seq!["network"@, "rm"@, "-f"@, "hugesyslogs-rede"@])
    } else {
        containers
    }
}

/// Remove containers e rede criados pela ferramenta: diz os comandos do podman.
pub fn limpar(nomes: &Vec<String>, remover_rede: bool, rede_existe: bool) -> (r: Vec<Vec<String>>)
    ensures
        comandos(r@) == comandos_de_limpeza(textos(nomes@), remover_rede, rede_existe),
{
    let ghost alvo = textos(nomes@).map_values(|n: Seq<char>| seq!["rm"@, "-f"@, n]);
    let mut r: Vec<Vec<String>> = Vec::new();
    let mut i: usize = 0;
    proof {
        assert(comandos(r@) =~= alvo.take(0));
    }
    while i < nomes.len()
        invariant
            i <= nomes@.len(),
            alvo == textos(nomes@).map_values(|n: Seq<char>| seq!["rm"@, "-f"@, n]),
            comandos(r@) == alvo.take(i as int),
        decreases nomes@.len() - i,
    {
        let ghost antes = r@;
        let c = remover(nomes[i].as_str());
        r.push(c);
        proof {
            assert(comandos(r@) =~= comandos(antes).push(textos(c@)));
            assert(alvo.take(i + 1) =~= alvo.take(i as int).push(alvo[i as int]));
        }
        i = i + 1;
    }
    proof {
        assert(alvo.take(nomes@.len() as int) =~= alvo);
    }
    if remover_rede && rede_existe {
        let ghost antes = r@;
        let c = rede_remover(REDE);
        r.push(c);
        proof {
            assert(comandos(r@) =~= comandos(antes).push(textos(c@)));
        }
    }
    r
}

/// O anúncio da última etapa.
pub fn encerramento(manter: bool) -> (r: &'static str)
    ensures
        r@ == if manter {
            "\n[8/8] --manter ativo: containers preservados para inspeção."@
        } else {
            "\n[8/8] Removendo containers e rede..."@
        },
{
    if manter {
        "\n[8/8] --manter ativo: containers preservados para inspeção."
    } else {
        "\n[8/8] Removendo containers e rede..."
    }
}

/// Uma etapa da execução de um teste.
pub enum Etapa {
    /// Encerra a execução com essa mensagem.
    Falhar(String),
    /// Cria esses diretórios, na ordem.
    CriarDiretorios(Vec<String>),
    /// Mostra uma linha ao usuário.
    Anunciar(String),
    /// Remove os containers e, se for o caso, a rede.
    Limpar { remover_rede: bool },
    /// Roda o ciclo do teste. O que ele der é o que a execução dá, depois das etapas que faltam.
    RodarCiclo,
}

pub enum EtapaVista {
    Falhar(Seq<char>),
    CriarDiretorios(Seq<Seq<char>>),
    Anunciar(Seq<char>),
    Limpar { remover_rede: bool },
    RodarCiclo,
}

impl View for Etapa {
    type V = EtapaVista;

    open spec fn view(&self) -> EtapaVista {
        match *self {
            Etapa::Falhar(m) => EtapaVista::Falhar(m@),
            Etapa::CriarDiretorios(ds) => EtapaVista::CriarDiretorios(textos(ds@)),
            Etapa::Anunciar(m) => EtapaVista::Anunciar(m@),
            Etapa::Limpar { remover_rede } => EtapaVista::Limpar { remover_rede },
            Etapa::RodarCiclo => EtapaVista::RodarCiclo,
        }
    }
}

impl Etapa {
    /// Se a falha desta etapa encerra a execução ali mesmo. A do ciclo não: o que ele deixou ainda
    /// é removido.
    pub fn encerra_ao_falhar(&self) -> (r: bool)
        ensures
            r == !(self@ is RodarCiclo),
    {
        match self {
            Etapa::RodarCiclo => false,
            _ => true,
        }
    }
}

/// As etapas de uma lista.
pub open spec fn etapas_vistas(v: Seq<Etapa>) -> Seq<EtapaVista> {
    v.map_values(|e: Etapa| e@)
}

/// As etapas da execução de um teste. Sem o podman ou sem a imagem, só a falha; senão os
/// diretórios, a limpeza do que sobrou de uma execução anterior, o ciclo e, a menos que os
/// containers devam ficar, a limpeza final com a rede.
pub open spec fn etapas(
    exec: Execucao,
    imagem: Seq<char>,
    podman_disponivel: bool,
    imagem_existe: bool,
    manter: bool,
) -> Seq<EtapaVista> {
    if !podman_disponivel {
        seq![EtapaVista::Falhar("o podman não está disponível no PATH"@)]
    } else if !imagem_existe {
        seq![
            EtapaVista::Falhar(
                "a imagem "@ + imagem + " não existe — rode 'hugesyslogs imagem' primeiro"@,
            ),
        ]
    } else {
        let ate_o_ciclo = seq![
            EtapaVista::CriarDiretorios(seq![exec.raiz@, exec.conf@, exec.certs@, exec.out@]),
            EtapaVista::Anunciar("Execução "@ + exec.id@ + " em "@ + exec.raiz@),
            EtapaVista::Limpar { remover_rede: false },
            EtapaVista::RodarCiclo,
        ];
        if manter {
            ate_o_ciclo.push(
                EtapaVista::Anunciar(
                    "\n[8/8] --manter ativo: containers preservados para inspeção."@,
                ),
            )
        } else {
            ate_o_ciclo.push(
                EtapaVista::Anunciar("\n[8/8] Removendo containers e rede..."@),
            ).push(EtapaVista::Limpar { remover_rede: true })
        }
    }
}

/// As etapas da execução de um teste, na ordem.
pub fn executar(
    exec: &Execucao,
    imagem: &str,
    podman_disponivel: bool,
    imagem_existe: bool,
    manter: bool,
) -> (v: Vec<Etapa>)
    ensures
        etapas_vistas(v@) == etapas(*exec, imagem@, podman_disponivel, imagem_existe, manter),
{
    let mut v: Vec<Etapa> = Vec::new();
    if let Some(m) = impedimento(podman_disponivel, imagem_existe, imagem) {
        v.push(Etapa::Falhar(m));
        proof {
            assert(etapas_vistas(v@) =~= etapas(
                *exec,
                imagem@,
                podman_disponivel,
                imagem_existe,
                manter,
            ));
        }
        return v;
    }
    let mut inicio = "Execução ".to_owned();
    inicio.append(exec.id.as_str());
    inicio.append(" em ");
    inicio.append(exec.raiz.as_str());
    v.push(Etapa::CriarDiretorios(exec.diretorios()));
    v.push(Etapa::Anunciar(inicio));
    v.push(Etapa::Limpar { remover_rede: false });
    v.push(Etapa::RodarCiclo);
    v.push(Etapa::Anunciar(encerramento(manter).to_owned()));
    if !manter {
        v.push(Etapa::Limpar { remover_rede: true });
    }
    proof {
        assert(etapas_vistas(v@) =~= etapas(
            *exec,
            imagem@,
            podman_disponivel,
            imagem_existe,
            manter,
        ));
    }
    v
}

/// Toda execução que roda o ciclo limpa antes dele o que sobrou de outra, sem tirar a rede, e
/// termina com a remoção dos containers e da rede, a menos que devam ficar. O ciclo roda se e
/// somente se há o podman e a imagem.
pub proof fn lei_limpeza_em_volta_do_ciclo(
    exec: Execucao,
    imagem: Seq<char>,
    podman_disponivel: bool,
    imagem_existe: bool,
    manter: bool,
)
    ensures
        ({
            let es = etapas(exec, imagem, podman_disponivel, imagem_existe, manter);
            &&& podman_disponivel && imagem_existe ==> es[2] == EtapaVista::Limpar {
                remover_rede: false,
            } && es[3] is RodarCiclo && (!manter ==> es.last() == EtapaVista::Limpar {
                remover_rede: true,
            })
            &&& manter ==> !es.contains(EtapaVista::Limpar { remover_rede: true })
            &&& !(podman_disponivel && imagem_existe) ==> es.len() == 1 && es[0] is Falhar
        }),
{
}

// ---- Relatório ----

/// O envio que os membros do relatório de um gerador contam.
pub open spec fn envio_contado(
    e: EnvioGerador,
    nome: Seq<char>,
    ms: Seq<(Seq<char>, EscalarVisto)>,
) -> bool {
    let janela = inteiro_do_membro(ms, "fim_ns"@) - inteiro_do_membro(ms, "inicio_medicao_ns"@);
    &&& e.nome@ == nome
    &&& e.taxa_alvo == numero_do_membro(ms, "taxa_alvo"@)
    &&& e.enviadas_uteis == numero_do_membro(ms, "enviadas_uteis"@)
    &&& e.taxa_real == real_do_membro(ms, "taxa_real"@)
    &&& e.erros_envio == numero_do_membro(ms, "erros_envio"@)
    &&& e.janela_s == Real::do_inteiro(janela).quociente(
        Real::do_inteiro(1_000_000_000),
    ).maior_entre(Real::do_inteiro(0))
}

/// O envio que os membros do relatório de um gerador contam, e o fim do seu aquecimento.
pub fn contar_envio(nome: &str, ms: &Vec<(String, Escalar)>) -> (r: (EnvioGerador, i128))
    ensures
        envio_contado(r.0, nome@, membros(ms@)),
        r.1 == inteiro_do_membro(membros(ms@), "inicio_medicao_ns"@),
{
    let inicio: i128 = ler_inteiro(ms, "inicio_medicao_ns") as i128;
    let fim: i128 = ler_inteiro(ms, "fim_ns") as i128;
    let janela = Real::de_i128(fim - inicio).dividir(Real::de_u64(1_000_000_000));
    let e = EnvioGerador {
        nome: nome.to_owned(),
        taxa_alvo: ler_numero(ms, "taxa_alvo"),
        enviadas_uteis: ler_numero(ms, "enviadas_uteis"),
        taxa_real: ler_real(ms, "taxa_real"),
        erros_envio: ler_numero(ms, "erros_envio"),
        janela_s: janela.maior(Real::de_u64(0)),
    };
    (e, inicio)
}

/// Lê o relatório de um gerador; nada se não é JSON.
pub fn ler_envio(nome: &str, bruto: &str) -> (r: Option<(EnvioGerador, i128)>)
    ensures
        match r {
            Some((e, inicio)) => objeto_lido(bruto@) is Some && envio_contado(
                e,
                nome@,
                objeto_lido(bruto@)->0,
            ) && inicio == inteiro_do_membro(objeto_lido(bruto@)->0, "inicio_medicao_ns"@),
            None => objeto_lido(bruto@) is None,
        },
{
    match ler_objeto(bruto) {
        Some(ms) => Some(contar_envio(nome, &ms)),
        None => None,
    }
}

/// O que os geradores relataram.
pub struct Envios {
    pub envios: Vec<EnvioGerador>,
    /// O fim do aquecimento de cada gerador.
    pub inicio_medicao: Tabela<i128>,
    /// Os geradores do plano que não deixaram relatório.
    pub ausentes: Vec<usize>,
}

/// As posições do plano com relatório.
pub open spec fn presentes(brutos: Seq<Option<String>>) -> Seq<int>
    decreases brutos.len(),
{
    if brutos.len() == 0 {
        Seq::empty()
    } else if brutos.last() is Some {
        presentes(brutos.drop_last()).push(brutos.len() - 1)
    } else {
        presentes(brutos.drop_last())
    }
}

/// As posições do plano sem relatório.
pub open spec fn faltantes(brutos: Seq<Option<String>>) -> Seq<int>
    decreases brutos.len(),
{
    if brutos.len() == 0 {
        Seq::empty()
    } else if brutos.last() is None {
        faltantes(brutos.drop_last()).push(brutos.len() - 1)
    } else {
        faltantes(brutos.drop_last())
    }
}

/// Se a posição tem um relatório que não é JSON.
pub open spec fn ilegivel(bruto: Option<String>) -> bool {
    bruto is Some && objeto_lido(bruto->0@) is None
}

/// O fim do aquecimento de cada gerador com relatório.
pub open spec fn inicios(
    ps: Seq<GeradorPlano>,
    brutos: Seq<Option<String>>,
) -> Seq<(Seq<char>, i128)>
    decreases brutos.len(),
{
    if brutos.len() == 0 {
        Seq::empty()
    } else {
        let antes = inicios(ps, brutos.drop_last());
        match brutos.last() {
            Some(b) => inserido(
                antes,
                ps[brutos.len() - 1].nome@,
                inteiro_do_membro(objeto_lido(b@)->0, "inicio_medicao_ns"@) as i128,
            ),
            None => antes,
        }
    }
}

/// Se o envio é o que o relatório do gerador conta.
pub open spec fn relatado(e: EnvioGerador, p: GeradorPlano, bruto: Option<String>) -> bool {
    envio_contado(e, p.nome@, objeto_lido(bruto->0@)->0)
}

/// Se cada envio é o que conta o relatório da sua posição.
pub open spec fn relatados(
    es: Seq<EnvioGerador>,
    ps: Seq<GeradorPlano>,
    brutos: Seq<Option<String>>,
    indices: Seq<int>,
) -> bool {
    &&& es.len() == indices.len()
    &&& forall|k: int|
        0 <= k < es.len() ==> relatado(#[trigger] es[k], ps[indices[k]], brutos[indices[k]])
}

proof fn lemma_mais_um_relatado(
    es: Seq<EnvioGerador>,
    e: EnvioGerador,
    ps: Seq<GeradorPlano>,
    brutos: Seq<Option<String>>,
    indices: Seq<int>,
    i: int,
)
    requires
        relatados(es, ps, brutos, indices),
        relatado(e, ps[i], brutos[i]),
    ensures
        relatados(es.push(e), ps, brutos, indices.push(i)),
{
    let novos = es.push(e);
    assert forall|k: int| 0 <= k < novos.len() implies relatado(
        #[trigger] novos[k],
        ps[indices.push(i)[k]],
        brutos[indices.push(i)[k]],
    ) by {
        if k < es.len() {
            assert(novos[k] == es[k]);
        }
    }
}

/// Um relatório que não é JSON.
pub struct EnvioIlegivel {
    /// A posição dele no plano.
    pub posicao: usize,
    /// As posições, antes dele, dos geradores que não deixaram relatório.
    pub ausentes: Vec<usize>,
}

/// Lê os relatórios dos geradores, um por posição do plano e nada onde ele falta; para no primeiro
/// que não é JSON.
pub fn ler_envios(plano: &Vec<GeradorPlano>, brutos: &Vec<Option<String>>) -> (r: Result<
    Envios,
    EnvioIlegivel,
>)
    requires
        brutos@.len() == plano@.len(),
    ensures
        match r {
            Ok(l) => {
                &&& forall|i: int| 0 <= i < brutos@.len() ==> !ilegivel(#[trigger] brutos@[i])
                &&& relatados(l.envios@, plano@, brutos@, presentes(brutos@))
                &&& l.inicio_medicao@ == inicios(plano@, brutos@)
                &&& l.ausentes@.map_values(|i: usize| i as int) == faltantes(brutos@)
            },
            Err(e) => {
                &&& e.posicao < brutos@.len()
                &&& ilegivel(brutos@[e.posicao as int])
                &&& forall|j: int| 0 <= j < e.posicao ==> !ilegivel(#[trigger] brutos@[j])
                &&& e.ausentes@.map_values(|i: usize| i as int) == faltantes(
                    brutos@.take(e.posicao as int),
                )
            },
        },
{
    let mut envios: Vec<EnvioGerador> = Vec::new();
    let mut inicio_medicao: Tabela<i128> = Tabela::nova();
    let mut ausentes: Vec<usize> = Vec::new();
    let mut i: usize = 0;
    proof {
        assert(ausentes@.map_values(|i: usize| i as int) =~= faltantes(brutos@.take(0)));
    }
    while i < brutos.len()
        invariant
            i <= brutos@.len(),
            brutos@.len() == plano@.len(),
            forall|j: int| 0 <= j < i ==> !ilegivel(#[trigger] brutos@[j]),
            relatados(envios@, plano@, brutos@, presentes(brutos@.take(i as int))),
            inicio_medicao@ == inicios(plano@, brutos@.take(i as int)),
            ausentes@.map_values(|i: usize| i as int) == faltantes(brutos@.take(i as int)),
        decreases brutos@.len() - i,
    {
        proof {
            assert(brutos@.take(i + 1).drop_last() =~= brutos@.take(i as int));
            assert(brutos@.take(i + 1).last() == brutos@[i as int]);
        }
        let p = &plano[i];
        match &brutos[i] {
            Some(bruto) => match ler_envio(p.nome.as_str(), bruto.as_str()) {
                Some((e, inicio)) => {
                    inicio_medicao.por(p.nome.as_str(), inicio);
                    proof {
                        lemma_mais_um_relatado(
                            envios@,
                            e,
                            plano@,
                            brutos@,
                            presentes(brutos@.take(i as int)),
                            i as int,
                        );
                    }
                    envios.push(e);
                },
                None => {
                    return Err(EnvioIlegivel { posicao: i, ausentes });
                },
            },
            None => {
                let ghost antes = ausentes@;
                ausentes.push(i);
                proof {
                    assert(ausentes@.map_values(|i: usize| i as int) =~= antes.map_values(
                        |i: usize| i as int,
                    ).push(i as int));
                }
            },
        }
        i = i + 1;
    }
    proof {
        assert(brutos@.take(brutos@.len() as int) =~= brutos@);
    }
    Ok(Envios { envios, inicio_medicao, ausentes })
}

/// A soma dos tamanhos de mensagem do plano, circular.
pub open spec fn soma_dos_tamanhos(ps: Seq<GeradorPlano>) -> usize
    decreases ps.len(),
{
    if ps.len() == 0 {
        0
    } else {
        soma_dos_tamanhos(ps.drop_last()).wrapping_add(ps.last().tamanho_mensagem)
    }
}

/// O tamanho médio de mensagem: o do teste, se não há geradores.
pub open spec fn tamanho_medio(cfg: Config, ps: Seq<GeradorPlano>) -> int {
    if ps.len() == 0 {
        cfg.teste.tamanho_mensagem as int
    } else {
        soma_dos_tamanhos(ps) as int / ps.len() as int
    }
}

/// O tamanho médio de mensagem: o do teste, se não há geradores.
pub fn calcular_tamanho_medio(cfg: &Config, ps: &Vec<GeradorPlano>) -> (r: usize)
    ensures
        r == tamanho_medio(*cfg, ps@),
{
    if ps.len() == 0 {
        return cfg.teste.tamanho_mensagem;
    }
    let mut soma: usize = 0;
    let mut i: usize = 0;
    while i < ps.len()
        invariant
            i <= ps@.len(),
            soma == soma_dos_tamanhos(ps@.take(i as int)),
        decreases ps@.len() - i,
    {
        proof {
            assert(ps@.take(i + 1).drop_last() =~= ps@.take(i as int));
        }
        soma = soma.wrapping_add(ps[i].tamanho_mensagem);
        i = i + 1;
    }
    proof {
        assert(ps@.take(ps@.len() as int) =~= ps@);
    }
    soma / ps.len()
}

/// O que mostrar e o que gravar ao fim de um teste.
pub struct Saidas {
    pub tabelas: Option<String>,
    pub relatorio: Option<Relatorio>,
}

/// Monta as tabelas e o relatório de um teste, conforme o formato pedido.
pub fn montar_relatorio(
    cfg: &Config,
    plano: &Vec<GeradorPlano>,
    envios: &Vec<EnvioGerador>,
    ag: &Agregado,
    conf: &Conferencia,
) -> (r: Saidas)
    ensures
        ({
            let resumo = resumo_de(*cfg, envios@, *ag, tamanho_medio(*cfg, plano@) as usize);
            &&& r.tabelas is Some <==> (cfg.saida.formato is Tabela || cfg.saida.formato is Ambos)
            &&& r.tabelas matches Some(t) ==> t@ == tabelas(
                *cfg,
                plano@,
                envios@,
                *ag,
                *conf,
                resumo,
            )
            &&& r.relatorio is Some <==> (cfg.saida.formato is Json || cfg.saida.formato is Ambos)
            &&& r.relatorio matches Some(j) ==> j.relata(
                *cfg,
                plano@,
                envios@,
                *ag,
                *conf,
                resumo,
            )
        }),
{
    let resumo = resumir(cfg, envios, ag, calcular_tamanho_medio(cfg, plano));
    let tabelas = if cfg.saida.formato.quer_tabela() {
        Some(imprimir_tabelas(cfg, plano, envios, ag, conf, &resumo))
    } else {
        None
    };
    let relatorio = if cfg.saida.formato.quer_json() {
        Some(montar_json(cfg, plano, envios, ag, conf, &resumo))
    } else {
        None
    };
    Saidas { tabelas, relatorio }
}

// ---- Leis ----

/// As ações anteriores à subida dos geradores.
pub open spec fn acoes_antes_dos_geradores(
    cfg: Config,
    exec: Execucao,
    imagem: Seq<char>,
) -> Seq<AcaoVista> {
    acoes_iniciais(cfg.tls.modo) + acoes_dos_receptores(cfg, exec, imagem) + acoes_do_relay(
        cfg.tls.modo,
        exec,
        imagem,
    )
}

/// As três últimas de seis partes são o que vem depois das três primeiras.
proof fn lemma_seis_partes(
    a: Seq<AcaoVista>,
    b: Seq<AcaoVista>,
    c: Seq<AcaoVista>,
    d: Seq<AcaoVista>,
    e: Seq<AcaoVista>,
    f: Seq<AcaoVista>,
)
    requires
        f.len() > 0,
    ensures
        (a + b + c + d + e + f).skip((a + b + c).len() as int) == d + e + f,
        a + b + c + d + e + f == (a + b + c) + (d + e + f),
        (a + b + c + d + e + f).last() == f.last(),
{
    let s = a + b + c + d + e + f;
    assert(s.skip((a + b + c).len() as int) =~= d + e + f);
    assert(s =~= (a + b + c) + (d + e + f));
}

/// O que está numa de três partes está nelas juntas.
proof fn lemma_em_tres_partes(
    a: Seq<AcaoVista>,
    b: Seq<AcaoVista>,
    c: Seq<AcaoVista>,
    x: AcaoVista,
)
    requires
        a.contains(x) || b.contains(x) || c.contains(x),
    ensures
        (a + b + c).contains(x),
{
    let s = a + b + c;
    if a.contains(x) {
        let i = choose|i: int| 0 <= i < a.len() && a[i] == x;
        assert(s[i] == x);
    } else if b.contains(x) {
        let i = choose|i: int| 0 <= i < b.len() && b[i] == x;
        assert(s[a.len() + i] == x);
    } else {
        let i = choose|i: int| 0 <= i < c.len() && c[i] == x;
        assert(s[a.len() + b.len() + i] == x);
    }
}

proof fn lemma_no_inicio(modo: ModoTls)
    ensures
        acoes_iniciais(modo).contains(AcaoVista::CriarRede),
        acoes_iniciais(modo).contains(AcaoVista::ValidarConfs),
{
    let ini = acoes_iniciais(modo);
    assert(ini[1] == AcaoVista::CriarRede);
    assert(ini[ini.len() - 2] == AcaoVista::ValidarConfs);
}

/// Todos os receptores são esperados.
proof fn lemma_receptor_esperado(cfg: Config, exec: Execucao, imagem: Seq<char>, i: nat)
    requires
        1 <= i <= cfg.receptores.quantidade,
    ensures
        acoes_dos_receptores(cfg, exec, imagem).contains(esperar_receptor(i)),
{
    let n = cfg.receptores.quantidade as int;
    assert(acoes_dos_receptores(cfg, exec, imagem)[n + i] == esperar_receptor(i));
}

/// Quando o primeiro gerador sobe, a rede existe, as configurações passaram pela validação, todos
/// os receptores estão escutando e o relay escuta em TCP e em UDP.
pub proof fn lei_prontos_antes_dos_geradores(cfg: Config, exec: Execucao, imagem: Seq<char>)
    ensures
        ({
            let antes = acoes_antes_dos_geradores(cfg, exec, imagem);
            &&& antes.contains(AcaoVista::CriarRede)
            &&& antes.contains(AcaoVista::ValidarConfs)
            &&& forall|i: nat|
                1 <= i <= cfg.receptores.quantidade ==> antes.contains(
                    #[trigger] esperar_receptor(i),
                )
            &&& antes.contains(esperar_relay(false))
            &&& antes.contains(esperar_relay(true))
        }),
{
    let ini = acoes_iniciais(cfg.tls.modo);
    let rec = acoes_dos_receptores(cfg, exec, imagem);
    let rel = acoes_do_relay(cfg.tls.modo, exec, imagem);
    let antes = acoes_antes_dos_geradores(cfg, exec, imagem);
    lemma_no_inicio(cfg.tls.modo);
    lemma_em_tres_partes(ini, rec, rel, AcaoVista::CriarRede);
    lemma_em_tres_partes(ini, rec, rel, AcaoVista::ValidarConfs);
    assert forall|i: nat| 1 <= i <= cfg.receptores.quantidade implies antes.contains(
        #[trigger] esperar_receptor(i),
    ) by {
        lemma_receptor_esperado(cfg, exec, imagem, i);
        lemma_em_tres_partes(ini, rec, rel, esperar_receptor(i));
    }
    assert(rel[2] == esperar_relay(false));
    assert(rel[3] == esperar_relay(true));
    lemma_em_tres_partes(ini, rec, rel, esperar_relay(false));
    lemma_em_tres_partes(ini, rec, rel, esperar_relay(true));
}

proof fn lemma_no_fim(cfg: Config)
    ensures
        acoes_finais(cfg).len() > 0,
        acoes_finais(cfg).last() == AcaoVista::Relatar,
        acoes_finais(cfg)[1] is AguardarGeradores,
        acoes_finais(cfg)[3] == AcaoVista::Drenar(cfg.teste.drenagem.total()),
{
}

/// Os geradores sobem na ordem do plano, depois de tudo o que precisam; a espera por eles, a
/// drenagem e a parada vêm depois, e o relatório é a última ação.
pub proof fn lei_ordem_do_ciclo(
    cfg: Config,
    plano: Seq<GeradorPlano>,
    exec: Execucao,
    imagem: Seq<char>,
)
    ensures
        ({
            let antes = acoes_antes_dos_geradores(cfg, exec, imagem);
            let c = ciclo(cfg, plano, exec, imagem);
            &&& c == antes + c.skip(antes.len() as int)
            &&& c.skip(antes.len() as int) == seq![
                AcaoVista::Anunciar("[6/8] Subindo "@ + digitos(plano.len()) + " geradores..."@),
            ] + acoes_dos_geradores(cfg, plano, exec, imagem) + acoes_finais(cfg)
            &&& c.last() == AcaoVista::Relatar
            &&& acoes_finais(cfg)[1] is AguardarGeradores
            &&& acoes_finais(cfg)[3] == AcaoVista::Drenar(cfg.teste.drenagem.total())
        }),
{
    lemma_no_fim(cfg);
    lemma_seis_partes(
        acoes_iniciais(cfg.tls.modo),
        acoes_dos_receptores(cfg, exec, imagem),
        acoes_do_relay(cfg.tls.modo, exec, imagem),
        seq![AcaoVista::Anunciar("[6/8] Subindo "@ + digitos(plano.len()) + " geradores..."@)],
        acoes_dos_geradores(cfg, plano, exec, imagem),
        acoes_finais(cfg),
    );
}

/// Todos os receptores escutam antes de o relay subir.
pub proof fn lei_receptores_antes_do_relay(cfg: Config, exec: Execucao, imagem: Seq<char>, i: nat)
    requires
        1 <= i <= cfg.receptores.quantidade,
    ensures
        (acoes_iniciais(cfg.tls.modo) + acoes_dos_receptores(cfg, exec, imagem)).contains(
            esperar_receptor(i),
        ),
        acoes_do_relay(cfg.tls.modo, exec, imagem)[1] is Subir,
{
    let ini = acoes_iniciais(cfg.tls.modo);
    let rec = acoes_dos_receptores(cfg, exec, imagem);
    lemma_receptor_esperado(cfg, exec, imagem, i);
    lemma_em_tres_partes(ini, rec, Seq::empty(), esperar_receptor(i));
    assert(ini + rec + Seq::<AcaoVista>::empty() =~= ini + rec);
}

} // verus!
