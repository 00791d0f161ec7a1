use hugesyslogs::balanceador::conf_nginx;
use hugesyslogs::certs;
use hugesyslogs::config::{
    drenagem_padrao, Config, Gerador, ModoTls, Proto, Receptores, Relay, Saida, Teste, Tls,
};
use hugesyslogs::duracao::Duracao;
use hugesyslogs::orquestrador::{
    aguardar_geradores, avaliar_validacao, calcular_limite, codigo_de_erro, comando_gerador,
    comando_rsyslog, diagnosticar, dormir_interrompivel, encerramento, esperar_porta, executar,
    falha_do_gerador, gerar_e_validar_confs, impedimento, juntar, limpar, mensagem_de_interrupcao,
    proxima_acao, rodar_ciclo, Acao, EsperaDaPorta, Etapa, EventoDaEspera, EventoDosGeradores,
    Execucao, PassoDaEspera, PassoDosGeradores, IMAGEM_PADRAO, REDE,
};
use hugesyslogs::podman::{self, Montagem};
use hugesyslogs::reais::Real;
use hugesyslogs::rsyslog::{conf_receptor, conf_relay};

fn cfg(modo: ModoTls, quantidade: usize) -> Config {
    let gerador = |nome: &str, proto: Proto| Gerador {
        nome: nome.to_string(),
        proto,
        peso: Real { bits: 1.0f64.to_bits() },
        threads: None,
        tamanho_mensagem: None,
        taxa: None,
    };
    Config {
        teste: Teste {
            duracao: Duracao::de_segundos(60),
            aquecimento: Duracao::de_milis(2_500),
            drenagem: drenagem_padrao(),
            tamanho_mensagem: 512,
            taxa: 5000,
            threads: 2,
            total_mensagens: 0,
        },
        relay: Relay { tamanho_fila: 1000, workers_fila: 3, rebind_interval: 0 },
        receptores: Receptores { quantidade },
        tls: Tls { modo },
        geradores: vec![gerador("A", Proto::Udp), gerador("B", Proto::Tcp)],
        saida: Saida::default(),
    }
}

fn exec() -> Execucao {
    Execucao::com_id("res", "ID".to_string())
}

#[test]
fn caminhos_como_os_do_sistema() {
    for base in ["", "/", "a", "a/", "/a/b", "./resultados"] {
        for nome in ["x", "x/y", "/abs", "conf"] {
            let esperado = std::path::Path::new(base).join(nome);
            assert_eq!(juntar(base, nome), esperado.to_str().unwrap());
        }
    }
}

#[test]
fn diretorios_da_execucao() {
    let e = exec();
    assert_eq!(e.diretorios(), ["res/ID", "res/ID/conf", "res/ID/certs", "res/ID/out"]);
    let nova = Execucao::criar("base");
    assert_eq!(nova.raiz, format!("base/{}", nova.id));
    // AAAA-MM-DD_HHMMSS
    assert_eq!(nova.id.len(), 17);
    let b = nova.id.as_bytes();
    assert_eq!((b[4], b[7], b[10]), (b'-', b'-', b'_'));
    assert!(nova.id.chars().filter(|c| c.is_ascii_digit()).count() == 14);
}

#[test]
fn configuracao_do_receptor() {
    let esperado = "# Receptor gerado pelo HugeSyslogs.
global(
    workDirectory=\"/tmp\"
)

module(load=\"imtcp\"
       StreamDriver.Name=\"gtls\"
       StreamDriver.Mode=\"1\"
       StreamDriver.AuthMode=\"anon\")

input(type=\"imtcp\" port=\"6514\")

template(name=\"hsb\" type=\"string\"
         string=\"%timegenerated:::date-rfc3339% %msg:1:90%\\n\")

action(type=\"omfile\" file=\"/out/recv-3.log\" template=\"hsb\"
       asyncWriting=\"on\" ioBufferSize=\"64k\" flushOnTXEnd=\"off\")
";
    assert_eq!(conf_receptor(&cfg(ModoTls::Anon, 4), 3), esperado);
    let com_certificado = conf_receptor(&cfg(ModoTls::Certvalid, 4), 3);
    assert!(com_certificado.contains(
        "    workDirectory=\"/tmp\"
    DefaultNetstreamDriver=\"gtls\"
    DefaultNetstreamDriverCertFile=\"/etc/hsb/certs/cert.pem\"
    DefaultNetstreamDriverKeyFile=\"/etc/hsb/certs/key.pem\"
)
"
    ));
    // Só o índice distingue um receptor do outro.
    assert_eq!(
        conf_receptor(&cfg(ModoTls::Anon, 4), 17),
        esperado.replace("recv-3.log", "recv-17.log")
    );
    assert_eq!(esperado.matches("recv-3.log").count(), 1);
    assert!(!esperado.contains("cert.pem") && !esperado.contains("key.pem"));
    assert!(com_certificado.contains("cert.pem") && com_certificado.contains("key.pem"));
}

#[test]
fn configuracao_do_relay() {
    let esperado = "# Relay gerado pelo HugeSyslogs.
global(
    workDirectory=\"/tmp\"
)

module(load=\"impstats\" interval=\"5\" format=\"json\"
       log.file=\"/out/relay-stats.log\" log.syslog=\"off\" resetCounters=\"off\")

module(load=\"imudp\")
input(type=\"imudp\" port=\"5514\" rcvbufSize=\"16m\")

module(load=\"imtcp\")
input(type=\"imtcp\" port=\"5514\")

action(
    type=\"omfwd\"
    target=[\"recv-1\", \"recv-2\", \"recv-3\"]
    port=\"6514\"
    protocol=\"tcp\"
    StreamDriver=\"gtls\"
    StreamDriverMode=\"1\"
    StreamDriverAuthMode=\"anon\"
    TCP_Framing=\"octet-counted\"
    queue.type=\"linkedList\"
    queue.size=\"1000\"
    queue.workerThreads=\"3\"
)
";
    assert_eq!(conf_relay(&cfg(ModoTls::Anon, 3)), esperado);
    let mut c = cfg(ModoTls::Certvalid, 1);
    c.relay.rebind_interval = 77;
    let texto = conf_relay(&c);
    assert!(texto.contains("    DefaultNetstreamDriverCAFile=\"/etc/hsb/certs/cert.pem\"\n)\n"));
    assert!(texto.contains("    target=[\"recv-1\"]\n"));
    assert!(texto.contains("StreamDriverAuthMode=\"x509/certvalid\"\n"));
    assert!(texto.ends_with("    queue.workerThreads=\"3\"\n    rebindInterval=\"77\"\n)\n"));
}

#[test]
fn configuracao_do_balanceador() {
    let texto = conf_nginx(&cfg(ModoTls::Anon, 2), 1514);
    let esperado = "# Balanceador L4 gerado pelo HugeSyslogs.
load_module /usr/lib/nginx/modules/ngx_stream_module.so;

daemon off;
worker_processes auto;
error_log /out/lb-erros.log warn;
pid /tmp/nginx.pid;

events {
    worker_connections 8192;
}

stream {
    # TCP em texto puro
    upstream receptores_tcp {
        hash $remote_addr$remote_port;
        server recv-1:1514;
        server recv-2:1514;
    }

    # UDP em texto puro
    upstream receptores_udp {
        hash $remote_addr$remote_port;
        server recv-1:1514;
        server recv-2:1514;
    }

    server {
        listen 5514;
        proxy_pass receptores_tcp;
        proxy_timeout 300s;
    }

    server {
        listen 5514 udp;
        proxy_responses 0;
        proxy_pass receptores_udp;
        proxy_timeout 60s;
    }
}
";
    assert_eq!(texto, esperado);
}

#[test]
fn comandos_do_podman() {
    assert_eq!(podman::disponivel(), ["--version"]);
    assert_eq!(podman::rede_existe("r"), ["network", "exists", "r"]);
    assert_eq!(podman::rede_criar("r", false).unwrap(), ["network", "create", "r"]);
    assert!(podman::rede_criar("r", true).is_none());
    assert_eq!(podman::rede_remover("r"), ["network", "rm", "-f", "r"]);
    assert_eq!(podman::imagem_existe("i"), ["image", "exists", "i"]);
    assert_eq!(
        podman::construir_imagem("t", "ctx", "Cf"),
        ["build", "-t", "t", "-f", "Cf", "ctx"]
    );
    assert_eq!(podman::esta_rodando("c"), ["inspect", "-f", "{{.State.Running}}", "c"]);
    assert_eq!(podman::codigo_saida("c"), ["inspect", "-f", "{{.State.ExitCode}}", "c"]);
    assert_eq!(podman::logs("c"), ["logs", "c"]);
    assert_eq!(podman::parar("c", 10), ["stop", "-t", "10", "c"]);
    assert_eq!(podman::remover("c"), ["rm", "-f", "c"]);
    assert_eq!(
        podman::listar_com_prefixo("hsb-"),
        ["ps", "-a", "--filter", "name=^hsb-", "--format", "{{.Names}}"]
    );
}

#[test]
fn sobe_containers() {
    let montagens = vec![Montagem::leitura("/a", "/b"), Montagem::escrita("/c", "/d")];
    assert_eq!(montagens[0].como_arg(), "/a:/b:ro,Z");
    assert_eq!(montagens[1].como_arg(), "/c:/d:Z");
    let comando = vec!["x".to_string(), "y".to_string()];
    assert_eq!(
        podman::subir("n", "i", "r", "ap", &montagens, &comando),
        [
            "run", "-d", "--name", "n", "--network", "r", "--network-alias", "ap", "--hostname",
            "ap", "-v", "/a:/b:ro,Z", "-v", "/c:/d:Z", "i", "x", "y"
        ]
    );
}

#[test]
fn sonda_a_porta() {
    assert_eq!(
        podman::porta_escutando("c", 6514, false),
        [
            "exec", "c", "sh", "-c",
            "grep -qi ':1972 [0-9A-F]*:0000 0A' /proc/net/tcp /proc/net/tcp6 2>/dev/null"
        ]
    );
    assert_eq!(
        podman::porta_escutando("c", 0xa0bf, true)[4],
        "grep -qi ':A0BF ' /proc/net/udp /proc/net/udp6 2>/dev/null"
    );
    for porta in [0u16, 9, 10, 255, 256, 5514, 65535] {
        assert!(podman::porta_escutando("c", porta, true)[4].contains(&format!(":{porta:04X} ")));
    }
}

#[test]
fn le_as_respostas_do_podman() {
    assert!(podman::rodando(Some(" true\n")));
    assert!(!podman::rodando(Some("false")));
    assert!(!podman::rodando(None));
    assert_eq!(podman::codigo(Some(" -3\n")), Some(-3));
    assert_eq!(podman::codigo(Some("x")), None);
    assert_eq!(podman::codigo(None), None);
    assert_eq!(podman::nomes_listados(Some(" hsb-a \r\n\n \nhsb-b")), ["hsb-a", "hsb-b"]);
    assert!(podman::nomes_listados(Some("")).is_empty());
    assert!(podman::nomes_listados(None).is_empty());
    let args = podman::rede_existe("r");
    assert_eq!(podman::falha(&args, " deu\nruim \n"), "podman network exists r falhou:\ndeu\nruim");
}

#[test]
fn certificado_autoassinado() {
    let c = certs::gerar("/d");
    assert_eq!(c.cert, "/d/cert.pem");
    assert_eq!(c.chave, "/d/key.pem");
    assert_eq!(
        c.comando,
        [
            "req", "-x509", "-newkey", "rsa:2048", "-nodes", "-days", "365", "-subj",
            "/CN=hugesyslogs", "-keyout", "/d/key.pem", "-out", "/d/cert.pem"
        ]
    );
    assert_eq!(c.permissoes_da_chave, 0o644);
    assert_eq!(certs::avaliar_openssl(true, "ruído"), Ok(()));
    assert_eq!(
        certs::avaliar_openssl(false, "sem espaço"),
        Err("openssl falhou ao gerar o certificado:\nsem espaço".to_string())
    );
}

#[test]
fn comandos_dos_containers() {
    assert_eq!(comando_rsyslog("/c"), ["rsyslogd", "-n", "-f", "/c", "-i", "NONE"]);
    let c = cfg(ModoTls::Anon, 1);
    let plano = c.plano();
    assert_eq!(
        comando_gerador(&c, &plano[1]),
        [
            "hugesyslogs", "gerar", "--nome", "B", "--proto", "tcp", "--alvo", "relay:5514",
            "--taxa", "2500", "--threads", "2", "--tamanho", "512", "--duracao", "60.000",
            "--aquecimento", "2.500", "--total", "0", "--saida", "/out"
        ]
    );
}

#[test]
fn configuracoes_sem_a_imagem() {
    let r = gerar_e_validar_confs(&cfg(ModoTls::Certvalid, 2), &exec(), "img", false, false);
    let caminhos: Vec<&str> = r.arquivos.iter().map(|a| a.caminho.as_str()).collect();
    assert_eq!(
        caminhos,
        ["res/ID/conf/relay.conf", "res/ID/conf/recv-1.conf", "res/ID/conf/recv-2.conf"]
    );
    assert_eq!(r.arquivos[2].conteudo, conf_receptor(&cfg(ModoTls::Certvalid, 2), 2));
    assert_eq!(
        r.adiada.unwrap(),
        "  · imagem img ainda não existe — validação do rsyslog adiada (rode 'hugesyslogs imagem')"
    );
    assert!(r.validacoes.is_empty());
    assert!(!r.gerar_certificado);
}

#[test]
fn configuracoes_com_a_imagem() {
    let r = gerar_e_validar_confs(&cfg(ModoTls::Anon, 1), &exec(), "img", true, false);
    assert!(r.adiada.is_none() && !r.gerar_certificado);
    assert_eq!(r.validacoes.len(), 2);
    assert_eq!(r.validacoes[0].arquivo, "relay.conf");
    assert_eq!(
        r.validacoes[1].comando,
        [
            "run", "--rm", "-v", "res/ID/conf/recv-1.conf:/tmp/teste.conf:ro,Z", "img",
            "rsyslogd", "-N1", "-f", "/tmp/teste.conf"
        ]
    );
    let r = gerar_e_validar_confs(&cfg(ModoTls::Certvalid, 1), &exec(), "img", true, false);
    assert!(r.gerar_certificado);
    assert_eq!(
        r.validacoes[0].comando,
        [
            "run", "--rm", "-v", "res/ID/conf/relay.conf:/tmp/teste.conf:ro,Z", "-v",
            "res/ID/certs:/etc/hsb/certs:ro,Z", "img", "rsyslogd", "-N1", "-f", "/tmp/teste.conf"
        ]
    );
    let r = gerar_e_validar_confs(&cfg(ModoTls::Certvalid, 1), &exec(), "img", true, true);
    assert!(!r.gerar_certificado);
}

#[test]
fn avalia_a_resposta_do_rsyslogd() {
    assert_eq!(
        avaliar_validacao("relay.conf", true, "tudo bem").unwrap(),
        "  · relay.conf validada pelo rsyslogd"
    );
    assert_eq!(
        avaliar_validacao("relay.conf", false, "x").unwrap_err(),
        "a configuração relay.conf não passou no rsyslogd -N1:\nx"
    );
    assert!(avaliar_validacao("relay.conf", true, "2 errors occured").is_err());
}

fn resumo(acoes: &[Acao]) -> Vec<String> {
    acoes
        .iter()
        .map(|a| match a {
            Acao::Anunciar(s) => format!("! {s}"),
            Acao::ChecarInterrupcao => "checar".to_string(),
            Acao::CriarRede => "rede".to_string(),
            Acao::GerarCertificado => "certificado".to_string(),
            Acao::ValidarConfs => "confs".to_string(),
            Acao::Subir(args) => format!("subir {}", args[3]),
            Acao::EsperarPorta(e) => format!("esperar {} {} {}", e.container, e.porta, e.udp),
            Acao::AguardarGeradores { limite } => format!("aguardar {}", limite.segundos),
            Acao::Drenar(d) => format!("drenar {}", d.segundos),
            Acao::Parar(args) => format!("parar {}", args[3]),
            Acao::Assentar(d) => format!("assentar {}", d.nanos),
            Acao::Relatar => "relatar".to_string(),
        })
        .collect()
}

#[test]
fn ciclo_completo() {
    let c = cfg(ModoTls::Anon, 2);
    let acoes = rodar_ciclo(&c, &c.plano(), &exec(), "img");
    assert_eq!(
        resumo(&acoes),
        [
            "! \n[1/8] Criando a rede hugesyslogs-rede...",
            "rede",
            "checar",
            "! [2/8] Certificado (Anon)...",
            "!   · modo anon: nenhum certificado necessário",
            "checar",
            "! [3/8] Gerando e validando as configurações rsyslog...",
            "confs",
            "checar",
            "! [4/8] Subindo 2 receptores...",
            "subir hsb-recv-1",
            "subir hsb-recv-2",
            "esperar hsb-recv-1 6514 false",
            "esperar hsb-recv-2 6514 false",
            "!   · todos os receptores escutando na porta TLS",
            "! [5/8] Subindo o relay...",
            "subir hsb-relay",
            "esperar hsb-relay 5514 false",
            "esperar hsb-relay 5514 true",
            "!   · relay escutando em 5514 (TCP e UDP)",
            "! [6/8] Subindo 2 geradores...",
            "subir hsb-gen-A",
            "!   · A (udp) a 2.500 msg/s em 2 thread(s)",
            "subir hsb-gen-B",
            "!   · B (tcp) a 2.500 msg/s em 2 thread(s)",
            "! [7/8] Rodando por 60s (aquecimento 2s)...",
            "aguardar 122",
            "!   · geradores concluídos, drenando filas por 10s...",
            "drenar 10",
            "!   · parando relay e receptores...",
            "parar hsb-relay",
            "parar hsb-recv-1",
            "parar hsb-recv-2",
            "assentar 500000000",
            "relatar",
        ]
    );
    match &acoes[11] {
        Acao::Subir(args) => assert_eq!(
            args[..],
            [
                "run", "-d", "--name", "hsb-recv-2", "--network", "hugesyslogs-rede",
                "--network-alias", "recv-2", "--hostname", "recv-2", "-v",
                "res/ID/conf/recv-2.conf:/etc/hsb/recv.conf:ro,Z", "-v", "res/ID/out:/out:Z",
                "img", "rsyslogd", "-n", "-f", "/etc/hsb/recv.conf", "-i", "NONE"
            ]
        ),
        _ => panic!(),
    }
    match &acoes[12] {
        Acao::EsperarPorta(e) => {
            assert_eq!(e.oque, "o receptor recv-1 abrir a porta TLS");
            assert_eq!(e.limite, Duracao::de_segundos(30));
        }
        _ => panic!(),
    }
}

#[test]
fn ciclo_para_na_primeira_falha() {
    let c = cfg(ModoTls::Anon, 2);
    let acoes = rodar_ciclo(&c, &c.plano(), &exec(), "img");
    // Faz as ações até a `falha`-ésima, que falha, e diz quais foram feitas.
    let fazer = |falha: usize| {
        let mut feitas = Vec::new();
        let mut falhou = false;
        while let Some(i) = proxima_acao(&acoes, feitas.len(), falhou) {
            feitas.push(i);
            falhou = i == falha;
        }
        feitas
    };
    for falha in 0..acoes.len() {
        assert_eq!(fazer(falha), (0..=falha).collect::<Vec<_>>());
    }
    assert_eq!(fazer(acoes.len()).len(), acoes.len());
    // A espera pelo primeiro receptor falha: o relay não sobe.
    let ate_ali = fazer(12);
    assert!(resumo(&acoes)[..ate_ali.len()].iter().all(|a| a != "subir hsb-relay"));
}

#[test]
fn gerador_sobe_com_a_taxa_do_plano() {
    let c = cfg(ModoTls::Anon, 1);
    let mut plano = c.plano();
    // A fatia que arredonda para zero vai como está no plano.
    plano[0].taxa = 0;
    let acoes = rodar_ciclo(&c, &plano, &exec(), "img");
    let r = resumo(&acoes);
    assert!(r.contains(&"!   · A (udp) a 0 msg/s em 2 thread(s)".to_string()));
    assert!(r.contains(&"!   · B (tcp) a 2.500 msg/s em 2 thread(s)".to_string()));
    let taxas: Vec<&str> = acoes
        .iter()
        .filter_map(|a| match a {
            Acao::Subir(args) => {
                let i = args.iter().position(|x| x == "--taxa")?;
                Some(args[i + 1].as_str())
            }
            _ => None,
        })
        .collect();
    assert_eq!(taxas, ["0", "2500"]);
}

#[test]
fn ciclo_com_certificado() {
    let c = cfg(ModoTls::Certvalid, 1);
    let acoes = rodar_ciclo(&c, &c.plano(), &exec(), "img");
    let r = resumo(&acoes);
    assert_eq!(r[3], "! [2/8] Certificado (Certvalid)...");
    assert_eq!(r[4], "certificado");
    assert_eq!(r[5], "!   · certificado self-signed gerado");
    let com_certs = acoes
        .iter()
        .filter(|a| match a {
            Acao::Subir(args) => args.iter().any(|x| x == "res/ID/certs:/etc/hsb/certs:ro,Z"),
            _ => false,
        })
        .count();
    assert_eq!(com_certs, 2);
}

#[test]
fn limite_dos_geradores() {
    let mut c = cfg(ModoTls::Anon, 1);
    assert_eq!(calcular_limite(&c), Some(Duracao::de_milis(122_500)));
    c.teste.duracao = Duracao::maxima();
    assert_eq!(calcular_limite(&c), None);
}

#[test]
fn espera_a_porta() {
    let e = EsperaDaPorta {
        container: "c".to_string(),
        porta: 5514,
        udp: true,
        limite: Duracao::de_milis(29_600),
        oque: "o relay".to_string(),
    };
    let volta = |ms: u64, interrompida: bool| EventoDaEspera::Volta {
        decorrido: Duracao::de_milis(ms),
        interrompida,
    };
    assert!(matches!(esperar_porta(&e, volta(0, false)), PassoDaEspera::ChecarContainer));
    match esperar_porta(&e, volta(0, true)) {
        PassoDaEspera::Falhar(m) => assert_eq!(m, mensagem_de_interrupcao()),
        _ => panic!(),
    }
    match esperar_porta(&e, volta(29_600, true)) {
        PassoDaEspera::Falhar(m) => {
            assert_eq!(m, "tempo esgotado esperando o relay (a porta 5514 não abriu em 30s)")
        }
        _ => panic!(),
    }
    assert!(matches!(
        esperar_porta(&e, EventoDaEspera::Rodando(true)),
        PassoDaEspera::ChecarPorta
    ));
    match esperar_porta(&e, EventoDaEspera::Rodando(false)) {
        PassoDaEspera::Falhar(m) => {
            assert_eq!(m, "o container c morreu antes de abrir a porta 5514")
        }
        _ => panic!(),
    }
    assert!(matches!(esperar_porta(&e, EventoDaEspera::Escutando(true)), PassoDaEspera::Pronto));
    assert!(matches!(esperar_porta(&e, EventoDaEspera::Escutando(false)), PassoDaEspera::Dormir));
}

#[test]
fn aguarda_os_geradores() {
    let limite = Duracao::de_segundos(10);
    let ativos = |quantos: usize, s: u64| EventoDosGeradores::Ativos {
        quantos,
        decorrido: Duracao::de_segundos(s),
    };
    assert!(matches!(
        aguardar_geradores(limite, EventoDosGeradores::Volta { interrompida: false }),
        PassoDosGeradores::Contar
    ));
    match aguardar_geradores(limite, EventoDosGeradores::Volta { interrompida: true }) {
        PassoDosGeradores::Falhar(m) => assert_eq!(m, "execução interrompida pelo usuário"),
        _ => panic!(),
    }
    assert!(matches!(aguardar_geradores(limite, ativos(0, 99)), PassoDosGeradores::Concluidos));
    assert!(matches!(aguardar_geradores(limite, ativos(1, 10)), PassoDosGeradores::Dormir));
    match aguardar_geradores(limite, ativos(2, 11)) {
        PassoDosGeradores::Falhar(m) => {
            assert_eq!(m, "tempo esgotado: 2 gerador(es) ainda rodando após o limite")
        }
        _ => panic!(),
    }
}

#[test]
fn geradores_que_terminam_mal() {
    assert_eq!(codigo_de_erro(Some(0)), None);
    assert_eq!(codigo_de_erro(Some(-1)), Some(-1));
    assert_eq!(codigo_de_erro(None), None);
    assert_eq!(
        falha_do_gerador("A", -9, " fim \n"),
        "o gerador A terminou com código -9:\nfim"
    );
}

#[test]
fn espera_interrompivel() {
    let total = Duracao::de_segundos(2);
    assert!(dormir_interrompivel(total, Duracao::de_segundos(1), false));
    assert!(!dormir_interrompivel(total, Duracao::de_segundos(1), true));
    assert!(!dormir_interrompivel(total, total, false));
}

#[test]
fn anexa_os_logs_ao_erro() {
    assert_eq!(diagnosticar("erro", "c", " \n"), "erro");
    assert_eq!(diagnosticar("erro", "c", " x\n"), "erro\n\n--- logs de c ---\nx");
}

#[test]
fn impedimentos_e_encerramento() {
    assert_eq!(
        impedimento(false, false, "i").unwrap(),
        "o podman não está disponível no PATH"
    );
    assert_eq!(
        impedimento(true, false, "i").unwrap(),
        "a imagem i não existe — rode 'hugesyslogs imagem' primeiro"
    );
    assert!(impedimento(true, true, "i").is_none());
    assert_eq!(encerramento(false), "\n[8/8] Removendo containers e rede...");
    assert!(encerramento(true).contains("--manter"));
    assert_eq!(REDE, "hugesyslogs-rede");
    assert_eq!(IMAGEM_PADRAO, "localhost/hugesyslogs:latest");
}

fn resumo_das_etapas(etapas: &[Etapa]) -> Vec<String> {
    etapas
        .iter()
        .map(|e| match e {
            Etapa::Falhar(m) => format!("falhar {m}"),
            Etapa::CriarDiretorios(ds) => format!("criar {}", ds.join(" ")),
            Etapa::Anunciar(m) => format!("! {m}"),
            Etapa::Limpar { remover_rede } => format!("limpar {remover_rede}"),
            Etapa::RodarCiclo => "ciclo".to_string(),
        })
        .collect()
}

#[test]
fn etapas_da_execucao() {
    let e = exec();
    assert_eq!(
        resumo_das_etapas(&executar(&e, "i", true, true, false)),
        [
            "criar res/ID res/ID/conf res/ID/certs res/ID/out",
            "! Execução ID em res/ID",
            "limpar false",
            "ciclo",
            "! \n[8/8] Removendo containers e rede...",
            "limpar true",
        ]
    );
    let mantida = executar(&e, "i", true, true, true);
    assert_eq!(
        resumo_das_etapas(&mantida)[3..],
        ["ciclo", "! \n[8/8] --manter ativo: containers preservados para inspeção."]
    );
    assert!(mantida[0].encerra_ao_falhar());
    assert!(!mantida[3].encerra_ao_falhar());
    for manter in [false, true] {
        assert_eq!(
            resumo_das_etapas(&executar(&e, "i", false, true, manter)),
            ["falhar o podman não está disponível no PATH"]
        );
        assert_eq!(
            resumo_das_etapas(&executar(&e, "i", true, false, manter)),
            ["falhar a imagem i não existe — rode 'hugesyslogs imagem' primeiro"]
        );
    }
}

#[test]
fn limpeza() {
    let nomes = vec!["hsb-a".to_string(), "hsb-b".to_string()];
    let containers = [["rm", "-f", "hsb-a"], ["rm", "-f", "hsb-b"]];
    assert_eq!(limpar(&nomes, false, true), containers);
    assert_eq!(limpar(&nomes, true, false), containers);
    let tudo = limpar(&nomes, true, true);
    assert_eq!(tudo.len(), 3);
    assert_eq!(tudo[2], ["network", "rm", "-f", "hugesyslogs-rede"]);
}
