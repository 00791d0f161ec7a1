use hugesyslogs::config::{
    drenagem_padrao, Config, Formato, GeradorPlano, Proto, Receptores, Relay, Saida, Teste, Tls,
};
use hugesyslogs::duracao::Duracao;
use hugesyslogs::metricas::{Agregado, Conferencia, EstatReceptor, Origem};
use hugesyslogs::metricas::Classe;
use hugesyslogs::orquestrador::{
    calcular_tamanho_medio, contar_envio, ler_envio, ler_envios, montar_relatorio,
};
use hugesyslogs::json::Escalar;
use hugesyslogs::reais::Real;
use hugesyslogs::relatorio::{
    dec, imprimir_tabelas, lat, milhares_f, montar_json, num, pct, pct_sinal, resumir, subtrair,
    EnvioGerador, Veredito,
};

fn r(x: f64) -> Real {
    Real { bits: x.to_bits() }
}

fn f(x: Real) -> f64 {
    f64::from_bits(x.bits)
}

fn cfg(quantidade: usize, formato: Formato) -> Config {
    Config {
        teste: Teste {
            duracao: Duracao::de_segundos(10),
            aquecimento: Duracao::de_segundos(0),
            drenagem: drenagem_padrao(),
            tamanho_mensagem: 512,
            taxa: 1000,
            threads: 1,
            total_mensagens: 0,
        },
        relay: Relay::default(),
        receptores: Receptores { quantidade },
        tls: Tls::default(),
        geradores: Vec::new(),
        saida: Saida { diretorio: "x".to_string(), formato },
    }
}

fn item(nome: &str, taxa_explicita: bool, tamanho: usize) -> GeradorPlano {
    GeradorPlano {
        nome: nome.to_string(),
        proto: Proto::Udp,
        peso: r(1.0),
        fatia: r(0.25),
        taxa: 1000,
        threads: 1,
        tamanho_mensagem: tamanho,
        taxa_explicita,
    }
}

fn envio(nome: &str, alvo: u64, uteis: u64, taxa: f64, erros: u64, janela: f64) -> EnvioGerador {
    EnvioGerador {
        nome: nome.to_string(),
        taxa_alvo: alvo,
        enviadas_uteis: uteis,
        taxa_real: r(taxa),
        erros_envio: erros,
        janela_s: r(janela),
    }
}

/// Um agregado com as mensagens de cada receptor, todas do gerador `A`.
fn agregado(por_receptor: &[&[Option<u64>]]) -> Agregado {
    let mut ag = Agregado::novo();
    for (i, latencias) in por_receptor.iter().enumerate() {
        let mut est = EstatReceptor::novo(format!("recv-{}", i + 1));
        for l in latencias.iter() {
            ag.registrar(
                &mut est,
                &Classe::Recebida { gerador: "A".to_string(), latencia_us: *l },
            );
        }
        ag.receptores.push(est);
    }
    ag
}

#[test]
fn formata_milhares_com_ponto() {
    assert_eq!(num(0), "0");
    assert_eq!(num(999), "999");
    assert_eq!(num(1_000), "1.000");
    assert_eq!(num(3_000_000), "3.000.000");
}

#[test]
fn formata_percentual_com_virgula() {
    assert_eq!(pct(r(25.0)), "25,00%");
    assert_eq!(pct_sinal(r(0.01)), "+0,01%");
}

#[test]
fn formata_latencia_por_faixa() {
    assert_eq!(lat(500), "500µs");
    assert_eq!(lat(1_200), "1,2ms");
}

#[test]
fn formata_extremos() {
    assert_eq!(num(u64::MAX), "18.446.744.073.709.551.615");
    assert_eq!(num(12_345), "12.345");
    assert_eq!(num(u64::MAX).replace('.', ""), u64::MAX.to_string());
    assert_eq!(lat(0), "-");
    assert_eq!(lat(999), "999µs");
    assert_eq!(lat(1_000), "1,0ms");
    assert_eq!(lat(999_999), "1000,0ms");
    assert_eq!(lat(1_000_000), "1,00s");
    assert_eq!(lat(60_000_000), "60,00s");
    assert_eq!(pct(r(f64::NAN)), "NaN%");
    assert_eq!(pct_sinal(r(-1.005)), "-1,00%");
    assert_eq!(dec(r(3.14159), 3), "3,142");
    assert_eq!(dec(r(2.5), 0), "2");
    assert_eq!(milhares_f(r(999.6)), "1000");
    assert_eq!(milhares_f(r(1000.0)), "1,0k");
    assert_eq!(milhares_f(r(12_345.0)), "12,3k");
}

#[test]
fn veredito_por_desvio() {
    assert_eq!(Veredito::avaliar(r(0.0)).texto(), "BALANCEADO");
    assert_eq!(Veredito::avaliar(r(1.0)).texto(), "BALANCEADO");
    assert_eq!(Veredito::avaliar(r(1.0000001)).texto(), "DESVIO LEVE");
    assert_eq!(Veredito::avaliar(r(5.0)).texto(), "DESVIO LEVE");
    assert_eq!(Veredito::avaliar(r(5.1)).texto(), "DESBALANCEADO");
    assert_eq!(Veredito::avaliar(r(f64::NAN)).texto(), "DESBALANCEADO");
}

#[test]
fn subtrai_com_sinal() {
    assert_eq!(subtrair(5, 7), -2);
    assert_eq!(subtrair(u64::MAX, 0), -1);
    assert_eq!(subtrair(0, u64::MAX), 1);
    assert_eq!(subtrair(u64::MAX, u64::MAX), 0);
}

#[test]
fn resume_o_teste() {
    let ag = agregado(&[&[Some(10); 30], &[Some(20); 60]]);
    let envios =
        vec![envio("A", 10, 60, 10.0, 0, 4.0), envio("B", 10, 40, 10.0, 0, 5.0)];
    let s = resumir(&cfg(2, Formato::Tabela), &envios, &ag, 1000);
    assert_eq!(s.enviadas, 100);
    assert_eq!(s.recebidas, 90);
    assert_eq!(s.perdidas, 10);
    assert_eq!(f(s.perda_pct), 10.0 / 100.0 * 100.0);
    assert_eq!(f(s.janela_s), 5.0);
    assert_eq!(f(s.vazao), 18.0);
    assert_eq!(f(s.mb_s), 18.0 * 1000.0 / 1_048_576.0);
    let desvios = [(30.0 / 90.0 * 100.0 - 50.0f64).abs(), (60.0 / 90.0 * 100.0 - 50.0f64).abs()];
    assert_eq!(f(s.desvio_maximo), desvios[0].max(desvios[1]));
}

#[test]
fn resumo_nao_depende_da_ordem() {
    let c = cfg(3, Formato::Tabela);
    let recebidas: [&[Option<u64>]; 3] = [&[Some(10); 7], &[Some(20); 3], &[None; 11]];
    let enviadas = [("A", 60, 4.0), ("B", 40, f64::NAN), ("C", 1, 5.5)];
    let resumo = |ordem: [usize; 3]| {
        let ag = agregado(&ordem.map(|i| recebidas[i]));
        let envios = ordem
            .iter()
            .map(|&i| {
                let (nome, uteis, janela) = enviadas[i];
                envio(nome, 10, uteis, 10.0, 0, janela)
            })
            .collect();
        let s = resumir(&c, &envios, &ag, 1000);
        (
            (s.enviadas, s.recebidas, s.perdidas),
            [s.perda_pct, s.vazao, s.mb_s, s.janela_s, s.desvio_maximo].map(|x| x.bits),
        )
    };
    let esperado = resumo([0, 1, 2]);
    for ordem in [[0, 2, 1], [1, 0, 2], [1, 2, 0], [2, 0, 1], [2, 1, 0]] {
        assert_eq!(resumo(ordem), esperado);
    }
}

#[test]
fn desvio_maximo_e_o_maior_dos_relatados() {
    let ag = agregado(&[&[Some(10); 7], &[Some(20); 3], &[None; 11]]);
    let c = cfg(3, Formato::Json);
    let s = resumir(&c, &Vec::new(), &ag, 1);
    let rel = montar_json(&c, &Vec::new(), &Vec::new(), &ag, &Conferencia::default(), &s);
    let maior = rel.receptores.iter().map(|x| f(x.desvio_pct).abs()).fold(0.0, f64::max);
    assert_eq!(f(s.desvio_maximo), maior);
    assert_eq!(rel.resumo.veredito, "DESBALANCEADO");
}

#[test]
fn resume_o_vazio() {
    let s = resumir(&cfg(0, Formato::Tabela), &Vec::new(), &Agregado::novo(), 1);
    assert_eq!((s.enviadas, s.recebidas, s.perdidas), (0, 0, 0));
    assert_eq!(f(s.perda_pct), 0.0);
    assert_eq!(f(s.vazao), 0.0);
    assert_eq!(f(s.desvio_maximo), 0.0);
}

#[test]
fn tabelas_completas() {
    let mut ag = agregado(&[&[Some(10), Some(1500), None], &[Some(2_000_000)]]);
    ag.linhas_invalidas = 1234;
    ag.origens.push(Origem { origem: "gen".to_string(), relay: "relay".to_string(), mensagens: 2 });
    let c = cfg(2, Formato::Ambos);
    let plano = vec![item("A", false, 512), item("sumido", true, 512)];
    let envios = vec![envio("A", 1000, 5, 500.0, 7, 2.0)];
    let conf = Conferencia {
        recebidas_relay: 6,
        encaminhadas: 5,
        na_fila: 0,
        descartadas_fila: 1,
        disponivel: true,
    };
    let s = resumir(&c, &envios, &ag, 512);
    let texto = imprimir_tabelas(&c, &plano, &envios, &ag, &conf, &s);
    let esperado = [
        "".to_string(),
        "=== RESUMO ===".to_string(),
        "duração útil: 2,0s   enviadas: 5   recebidas: 4".to_string(),
        "perda: 1 (20,00%)   vazão: 2 msg/s | 0,0 MB/s".to_string(),
        "".to_string(),
        "=== POR RECEPTOR (balanceamento) ===".to_string(),
        "receptor      mensagens     fatia    desvio       p50       p99       máx".to_string(),
        "recv-1                3    75,00%   +25,00%      10µs     1,5ms     1,5ms".to_string(),
        "recv-2                1    25,00%   -25,00%     2,00s     2,00s     2,00s".to_string(),
        "-".repeat(72),
        "desvio máximo: 25,00%   ->  DESBALANCEADO".to_string(),
        "".to_string(),
        "=== POR GERADOR ===".to_string(),
        "gerador     proto   fatia     enviadas    recebidas             perdidas".to_string(),
        "A             udp  25,00%            5            4           1 (20,00%)".to_string(),
        "sumido        udp       - sem relatório            -                    -".to_string(),
        "".to_string(),
        "=== ORIGEM x RELAY (cadeia vista pelo receptor) ===".to_string(),
        "origem (emissor)     relay (encaminhou)      mensagens     fatia".to_string(),
        "gen                  relay                           2    50,00%".to_string(),
        "".to_string(),
        "=== AVISOS ===".to_string(),
        "  ! gerador A emitiu 500 msg/s, abaixo dos 1,0k configurados — o gargalo pode ser o próprio gerador".to_string(),
        "  ! gerador A acumulou 7 erros de envio".to_string(),
        "  ! 1 mensagens com latência negativa (relógio inconsistente)".to_string(),
        "  ! 1.234 linhas ilegíveis nos logs dos receptores".to_string(),
        "".to_string(),
        "=== CONFERÊNCIA (impstats do relay, inclui o aquecimento) ===".to_string(),
        "recebidas pelo relay: 6   encaminhadas: 5   na fila ao final: 0".to_string(),
        "  ! o relay descartou 1 mensagens por fila cheia".to_string(),
        "".to_string(),
        "".to_string(),
    ];
    let linhas: Vec<&str> = texto.split('\n').collect();
    for i in 0..esperado.len() {
        assert_eq!(linhas[i], esperado[i], "linha {i}");
    }
    assert_eq!(linhas.len(), esperado.len());
}

#[test]
fn tabelas_sem_nada_a_avisar() {
    let ag = agregado(&[&[Some(1); 12]]);
    let c = cfg(1, Formato::Tabela);
    let plano = vec![item("A", true, 512)];
    let envios = vec![envio("A", 5, 10, 4.75, 0, 2.0)];
    let s = resumir(&c, &envios, &ag, 512);
    let texto = imprimir_tabelas(&c, &plano, &envios, &ag, &Conferencia::default(), &s);
    assert!(texto.contains("perda: 2 duplicadas (20,00%)"));
    assert!(texto.contains("A             udp    fixa           10           12          2 (-20,00%)\n"));
    assert!(texto.contains("->  BALANCEADO\n"));
    assert!(!texto.contains("AVISOS"));
    assert!(!texto.contains("CONFERÊNCIA"));
    assert!(!texto.contains("ORIGEM"));
    assert!(texto.ends_with("(-20,00%)\n\n"));
}

#[test]
fn vale_o_ultimo_envio_de_um_nome() {
    let ag = agregado(&[&[Some(1)]]);
    let c = cfg(1, Formato::Json);
    let plano = vec![item("A", true, 512)];
    let envios = vec![envio("A", 5, 10, 1.0, 3, 2.0), envio("A", 5, 20, 2.0, 4, 2.0)];
    let s = resumir(&c, &envios, &ag, 512);
    let j = montar_json(&c, &plano, &envios, &ag, &Conferencia::default(), &s);
    assert_eq!(j.geradores[0].enviadas, 20);
    assert_eq!(f(j.geradores[0].taxa_real), 2.0);
    assert_eq!(j.geradores[0].erros_envio, 4);
}

#[test]
fn relatorio_completo() {
    let mut ag = agregado(&[&[Some(10), Some(20), Some(30)], &[]]);
    ag.descartadas_aquecimento = 9;
    ag.origens.push(Origem { origem: "o".to_string(), relay: "e".to_string(), mensagens: 3 });
    let c = cfg(2, Formato::Json);
    let plano = vec![item("A", false, 512), item("B", false, 512)];
    let envios = vec![envio("A", 5, 4, 2.0, 1, 2.0)];
    let conf = Conferencia {
        recebidas_relay: 1,
        encaminhadas: 2,
        na_fila: 3,
        descartadas_fila: 4,
        disponivel: true,
    };
    let s = resumir(&c, &envios, &ag, 512);
    let j = montar_json(&c, &plano, &envios, &ag, &conf, &s);
    assert_eq!(j.resumo.enviadas, 4);
    assert_eq!(j.resumo.perdidas, 1);
    assert_eq!(j.resumo.veredito, "DESBALANCEADO");
    assert_eq!(f(j.resumo.vazao_msg_s), 1.5);
    assert_eq!(j.receptores.len(), 2);
    assert_eq!(j.receptores[0].nome, "recv-1");
    assert_eq!(f(j.receptores[0].fatia_pct), 100.0);
    assert_eq!(f(j.receptores[1].desvio_pct), -50.0);
    assert_eq!(j.receptores[0].latencia_us.p50, 20);
    assert_eq!(j.receptores[0].latencia_us.p90, 30);
    assert_eq!(j.receptores[0].latencia_us.p99, 30);
    assert_eq!(j.receptores[0].latencia_us.max, 30);
    assert_eq!(j.receptores[1].latencia_us.max, 0);
    assert_eq!(j.receptores[0].por_gerador.ler("A"), 3);
    assert_eq!(j.geradores[0].recebidas, 3);
    assert_eq!(j.geradores[0].perdidas, 1);
    assert_eq!(f(j.geradores[0].fatia_pct), 25.0);
    assert_eq!(j.geradores[1].enviadas, 0);
    assert_eq!(f(j.geradores[1].taxa_real), 0.0);
    assert_eq!(j.geradores[1].proto, "udp");
    assert_eq!(f(j.origens[0].fatia_pct), 100.0);
    assert_eq!(j.conferencia.na_fila, 3);
    assert_eq!(j.diagnostico.descartadas_aquecimento, 9);
}

#[test]
fn saidas_conforme_o_formato() {
    let ag = agregado(&[&[Some(1)]]);
    let plano = vec![item("A", true, 512)];
    let envios = vec![envio("A", 5, 10, 1.0, 3, 2.0)];
    for (formato, tabela, json) in [
        (Formato::Tabela, true, false),
        (Formato::Json, false, true),
        (Formato::Ambos, true, true),
    ] {
        let s = montar_relatorio(&cfg(1, formato), &plano, &envios, &ag, &Conferencia::default());
        assert_eq!(s.tabelas.is_some(), tabela);
        assert_eq!(s.relatorio.is_some(), json);
    }
}

#[test]
fn tamanho_medio_do_plano() {
    let c = cfg(1, Formato::Tabela);
    assert_eq!(calcular_tamanho_medio(&c, &Vec::new()), 512);
    assert_eq!(calcular_tamanho_medio(&c, &vec![item("a", true, 100), item("b", true, 201)]), 150);
}

#[test]
fn envio_lido_do_relatorio_do_gerador() {
    let bruto = r#"{"nome":"outro","taxa_alvo":100,"enviadas_uteis":50,"taxa_real":12.5,
        "erros_envio":2,"inicio_medicao_ns":1000000000,"fim_ns":3500000000,"lista":[1],"x":null}"#;
    let (e, inicio) = ler_envio("A", bruto).unwrap();
    assert_eq!(e.nome, "A");
    assert_eq!(e.taxa_alvo, 100);
    assert_eq!(e.enviadas_uteis, 50);
    assert_eq!(f(e.taxa_real), 12.5);
    assert_eq!(e.erros_envio, 2);
    assert_eq!(f(e.janela_s), 2.5);
    assert_eq!(inicio, 1_000_000_000);

    // Membros ausentes ou de outro tipo contam como zero, e a janela não é negativa.
    let (e, inicio) = ler_envio("A", r#"{"taxa_alvo":-1,"inicio_medicao_ns":5,"fim_ns":1}"#).unwrap();
    assert_eq!((e.taxa_alvo, e.enviadas_uteis, inicio), (0, 0, 5));
    assert_eq!(f(e.taxa_real), 0.0);
    assert_eq!(f(e.janela_s), 0.0);

    assert!(ler_envio("A", "[1, 2]").is_some());
    assert!(ler_envio("A", "{").is_none());
}

#[test]
fn envio_contado_dos_membros() {
    let ms = vec![
        (
            "fim_ns".to_string(),
            Escalar::Numero { natural: Some(7_000), inteiro: Some(7_000), flutuante: Some(r(7e3)) },
        ),
        (
            "taxa_real".to_string(),
            Escalar::Numero { natural: None, inteiro: None, flutuante: Some(r(1.25)) },
        ),
        ("taxa_alvo".to_string(), Escalar::Texto("9".to_string())),
    ];
    let (e, inicio) = contar_envio("B", &ms);
    assert_eq!(f(e.janela_s), 7e-6);
    assert_eq!(f(e.taxa_real), 1.25);
    assert_eq!(e.taxa_alvo, 0);
    assert_eq!(inicio, 0);
}

#[test]
fn envios_de_todo_o_plano() {
    let plano = vec![item("A", true, 1), item("B", true, 1), item("C", true, 1)];
    let brutos = vec![
        Some(r#"{"inicio_medicao_ns":3,"enviadas_uteis":1}"#.to_string()),
        None,
        Some(r#"{"inicio_medicao_ns":4,"enviadas_uteis":2}"#.to_string()),
    ];
    let lidos = ler_envios(&plano, &brutos).ok().unwrap();
    assert_eq!(lidos.envios.len(), 2);
    assert_eq!(lidos.envios[1].nome, "C");
    assert_eq!(lidos.envios[1].enviadas_uteis, 2);
    assert_eq!(lidos.ausentes, [1]);
    assert_eq!(lidos.inicio_medicao.obter("A"), Some(3));
    assert_eq!(lidos.inicio_medicao.obter("B"), None);
    assert_eq!(lidos.inicio_medicao.obter("C"), Some(4));

    let ruins = vec![None, Some("x".to_string()), Some("{".to_string())];
    let e = ler_envios(&plano, &ruins).err().unwrap();
    assert_eq!((e.posicao, e.ausentes), (1, vec![0]));
}
