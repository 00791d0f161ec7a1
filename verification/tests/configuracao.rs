use hugesyslogs::config::{
    diretorio_padrao, drenagem_padrao, fila_padrao, peso_padrao, tamanho_padrao, threads_padrao,
    workers_padrao, Config, ErroConfig, Formato, Gerador, ModoTls, Proto, Receptores, Relay, Saida,
    Teste, Tls,
};
use hugesyslogs::duracao::Duracao;
use hugesyslogs::plano::apresentar;
use hugesyslogs::reais::Real;

fn gerador(nome: &str, proto: Proto, peso: f64) -> Gerador {
    Gerador {
        nome: nome.to_string(),
        proto,
        peso: Real { bits: peso.to_bits() },
        threads: None,
        tamanho_mensagem: None,
        taxa: None,
    }
}

fn config(duracao: u64, taxa: u64, quantidade: usize, geradores: Vec<Gerador>) -> Config {
    Config {
        teste: Teste {
            duracao: Duracao::de_segundos(duracao),
            aquecimento: Duracao::de_segundos(0),
            drenagem: drenagem_padrao(),
            tamanho_mensagem: tamanho_padrao(),
            taxa,
            threads: threads_padrao(),
            total_mensagens: 0,
        },
        relay: Relay::default(),
        receptores: Receptores { quantidade },
        tls: Tls::default(),
        geradores,
        saida: Saida::default(),
    }
}

fn cfg_exemplo() -> Config {
    config(
        60,
        50000,
        4,
        vec![
            gerador("A", Proto::Udp, 90.0),
            gerador("B", Proto::Tcp, 3.0),
            gerador("C", Proto::Udp, 1.0),
            gerador("D", Proto::Udp, 6.0),
        ],
    )
}

#[test]
fn pesos_viram_taxas_proporcionais() {
    let plano = cfg_exemplo().plano();
    assert_eq!(plano[0].taxa, 45_000);
    assert_eq!(plano[1].taxa, 1_500);
    assert_eq!(plano[2].taxa, 500);
    assert_eq!(plano[3].taxa, 3_000);
}

#[test]
fn taxa_explicita_ignora_o_peso() {
    let mut x = gerador("X", Proto::Tcp, 1.0);
    x.taxa = Some(777);
    let cfg = config(10, 1000, 1, vec![x]);
    let plano = cfg.plano();
    assert_eq!(plano[0].taxa, 777);
    assert!(plano[0].taxa_explicita);
}

#[test]
fn rejeita_nomes_duplicados() {
    let cfg = config(
        10,
        10,
        1,
        vec![gerador("A", Proto::Tcp, 1.0), gerador("A", Proto::Udp, 1.0)],
    );
    assert!(cfg.validar().is_err());
}

#[test]
fn exemplo_e_valido() {
    assert!(cfg_exemplo().validar().is_ok());
}

#[test]
fn padroes_da_configuracao() {
    assert_eq!(drenagem_padrao(), Duracao::de_segundos(10));
    assert_eq!(tamanho_padrao(), 512);
    assert_eq!(threads_padrao(), 4);
    assert_eq!(fila_padrao(), 100_000);
    assert_eq!(workers_padrao(), 1);
    assert_eq!(peso_padrao().bits, 1.0f64.to_bits());
    assert_eq!(diretorio_padrao(), "./resultados");
    assert_eq!(Relay::default().tamanho_fila, 100_000);
    assert_eq!(Relay::default().workers_fila, 1);
    assert_eq!(Relay::default().rebind_interval, 0);
    assert!(matches!(Tls::default().modo, ModoTls::Anon));
    assert!(matches!(ModoTls::default(), ModoTls::Anon));
    assert_eq!(Saida::default().diretorio, "./resultados");
    assert!(matches!(Saida::default().formato, Formato::Tabela));
    assert!(matches!(Formato::default(), Formato::Tabela));
}

#[test]
fn formatos_pedem_tabela_ou_json() {
    assert!(Formato::Tabela.quer_tabela() && !Formato::Tabela.quer_json());
    assert!(!Formato::Json.quer_tabela() && Formato::Json.quer_json());
    assert!(Formato::Ambos.quer_tabela() && Formato::Ambos.quer_json());
}

#[test]
fn protocolos_de_texto() {
    assert!(matches!("TcP".parse::<Proto>(), Ok(Proto::Tcp)));
    assert!(matches!(Proto::de_texto("udp"), Ok(Proto::Udp)));
    assert_eq!(
        Proto::de_texto("SC\tTP").unwrap_err(),
        "protocolo inválido: \"sc\\ttp\" (use tcp ou udp)"
    );
    assert_eq!(Proto::Tcp.texto(), "tcp");
    assert_eq!(Proto::Udp.texto(), "udp");
    assert_eq!(ModoTls::Certvalid.texto(), "Certvalid");
    assert_eq!(ModoTls::Anon.texto(), "Anon");
}

fn erro(altera: fn(&mut Config)) -> String {
    let mut cfg = cfg_exemplo();
    altera(&mut cfg);
    cfg.validar().unwrap_err().mensagem()
}

#[test]
fn cada_falha_tem_a_sua_mensagem() {
    assert_eq!(erro(|c| c.geradores.clear()), "é preciso declarar ao menos um [[gerador]]");
    assert_eq!(
        erro(|c| c.receptores.quantidade = 0),
        "receptores.quantidade precisa ser no mínimo 1"
    );
    assert_eq!(erro(|c| c.teste.threads = 0), "teste.threads precisa ser no mínimo 1");
    assert_eq!(
        erro(|c| c.teste.tamanho_mensagem = 127),
        "teste.tamanho_mensagem = 127 é menor que o mínimo de 128 bytes"
    );
    assert_eq!(
        erro(|c| c.teste.duracao = Duracao::de_segundos(0)),
        "com total_mensagens = 0, teste.duracao precisa ser maior que zero"
    );
    assert_eq!(
        erro(|c| c.teste.aquecimento = Duracao::de_segundos(60)),
        "teste.aquecimento precisa ser menor que teste.duracao"
    );
    assert_eq!(erro(|c| c.relay.workers_fila = 0), "relay.workers_fila precisa ser no mínimo 1");
    assert_eq!(
        erro(|c| c.geradores[1].nome = " \u{2003}".to_string()),
        "todo [[gerador]] precisa de um nome"
    );
    assert_eq!(
        erro(|c| c.geradores[1].nome = "abcdefghijklmnopq".to_string()),
        "nome de gerador \"abcdefghijklmnopq\" excede 16 caracteres"
    );
    assert_eq!(
        erro(|c| c.geradores[1].nome = "ação".to_string()),
        "nome de gerador \"ação\" só pode conter letras, números, '-' e '_'"
    );
    assert_eq!(
        erro(|c| c.geradores[3].nome = "B".to_string()),
        "nome de gerador duplicado: \"B\""
    );
    assert_eq!(
        erro(|c| c.geradores[2].threads = Some(0)),
        "gerador \"C\": threads precisa ser no mínimo 1"
    );
    assert_eq!(
        erro(|c| c.geradores[2].tamanho_mensagem = Some(10)),
        "gerador \"C\": tamanho_mensagem = 10 é menor que o mínimo de 128 bytes"
    );
    assert_eq!(
        erro(|c| c.geradores[0].peso = Real { bits: (-0.0f64).to_bits() }),
        "gerador \"A\": peso precisa ser maior que zero (ou defina uma taxa absoluta)"
    );
    assert_eq!(
        erro(|c| c.teste.taxa = 0),
        "teste.taxa precisa ser maior que zero para repartir entre os geradores por peso"
    );
}

#[test]
fn a_primeira_falha_vence() {
    let mut cfg = cfg_exemplo();
    cfg.teste.taxa = 0;
    cfg.geradores[2].threads = Some(0);
    cfg.geradores[3].nome = String::new();
    assert!(matches!(cfg.validar(), Err(ErroConfig::GeradorSemThreads { .. })));
    cfg.receptores.quantidade = 0;
    assert!(matches!(cfg.validar(), Err(ErroConfig::SemReceptores)));
}

#[test]
fn taxa_zero_serve_se_todas_sao_fixas() {
    let mut cfg = cfg_exemplo();
    cfg.teste.taxa = 0;
    for g in cfg.geradores.iter_mut() {
        g.taxa = Some(5);
        g.peso = Real { bits: 0 };
    }
    assert!(cfg.validar().is_ok());
}

#[test]
fn total_dispensa_a_duracao() {
    let mut cfg = cfg_exemplo();
    cfg.teste.total_mensagens = 10;
    cfg.teste.duracao = Duracao::de_segundos(0);
    cfg.teste.aquecimento = Duracao::de_segundos(5);
    assert!(cfg.validar().is_ok());
}

#[test]
fn plano_resolve_os_padroes() {
    let mut cfg = cfg_exemplo();
    cfg.geradores[1].threads = Some(9);
    cfg.geradores[2].tamanho_mensagem = Some(1024);
    let plano = cfg.plano();
    assert_eq!(plano[0].threads, 4);
    assert_eq!(plano[1].threads, 9);
    assert_eq!(plano[0].tamanho_mensagem, 512);
    assert_eq!(plano[2].tamanho_mensagem, 1024);
    assert_eq!(f64::from_bits(plano[0].fatia.bits), 90.0 / 100.0);
    assert_eq!(plano[0].container(), "hsb-gen-A");
    assert!(!plano[0].taxa_explicita);
}

#[test]
fn taxas_seguem_a_ordem_dos_pesos() {
    let pesos = [0.1, 0.3, 0.3000000000000001, 7.0, 1e-300, 1e6];
    let cfg = config(
        1,
        1_000_003,
        1,
        pesos.iter().enumerate().map(|(i, p)| gerador(&format!("g{i}"), Proto::Udp, *p)).collect(),
    );
    let plano = cfg.plano();
    let soma: f64 = pesos.iter().sum();
    for i in 0..pesos.len() {
        assert_eq!(plano[i].taxa, (1_000_003f64 * (pesos[i] / soma)).round() as u64);
        for j in 0..pesos.len() {
            if pesos[i] <= pesos[j] {
                assert!(plano[i].taxa <= plano[j].taxa);
            }
        }
    }
}

#[test]
fn nomes_dos_receptores() {
    assert_eq!(cfg_exemplo().nomes_receptores(), ["recv-1", "recv-2", "recv-3", "recv-4"]);
}

#[test]
fn plano_apresentado() {
    let mut cfg = cfg_exemplo();
    cfg.geradores[1].taxa = Some(777);
    let texto = apresentar("config.toml", "por mensagem", &cfg, &cfg.plano());
    let linhas: Vec<&str> = texto.split('\n').collect();
    assert_eq!(linhas[0], "Configuração válida: config.toml");
    assert_eq!(linhas[1], "Distribuição: por mensagem");
    assert_eq!(linhas[2], "");
    assert_eq!(linhas[3], "Duração 60s (aquecimento 0s, drenagem 10s)");
    assert_eq!(linhas[4], "Receptores: 4   TLS: Anon   Fila do relay: 100.000 (1 worker(s))");
    assert_eq!(linhas[6], "=== PLANO DE CARGA ===");
    assert_eq!(
        linhas[7],
        format!(
            "{:<10} {:>6} {:>8} {:>9} {:>12} {:>9} {:>9}",
            "gerador", "proto", "peso", "fatia", "msgs/s", "threads", "bytes"
        )
    );
    assert_eq!(
        linhas[8],
        format!(
            "{:<10} {:>6} {:>8} {:>9} {:>12} {:>9} {:>9}",
            "A", "udp", "90", "92,78%", "46.392", 4, 512
        )
    );
    assert_eq!(
        linhas[9],
        format!(
            "{:<10} {:>6} {:>8} {:>9} {:>12} {:>9} {:>9}",
            "B", "tcp", "3", "fixa", "777", 4, 512
        )
    );
    assert_eq!(linhas[12], "-".repeat(70));
    assert_eq!(linhas[13], format!("{:<10} {:>37}", "TOTAL", "50.777"));
    assert_eq!(linhas.len(), 15);
}
