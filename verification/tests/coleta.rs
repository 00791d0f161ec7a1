use hugesyslogs::json::Escalar;
use hugesyslogs::latencias::LATENCIA_MAXIMA_US;
use hugesyslogs::metricas::{
    calcular_latencia, classificar, classificar_corpo, coletar, conferir, extrair, Agregado,
    Amostras, Classe, EstatReceptor,
};
use hugesyslogs::tabela::Tabela;

const CARIMBO: &str = "2026-09-16T12:00:00.000001-03:00";
// O mesmo instante, em nanossegundos.
const RECEBIDO: i64 = 1_789_570_800_000_001_000;

fn linha(gerador: &str, envio: i64) -> Option<String> {
    Some(format!("{CARIMBO} g={gerador} s=1 t={envio} AAAA"))
}

fn sem_aquecimento() -> Tabela<i128> {
    Tabela::nova()
}

#[test]
fn extrai_os_campos() {
    let c = extrair("g=A s=4211 t=1758024000123456789 AAAA").unwrap();
    assert_eq!(c.gerador, "A");
    assert_eq!(c.envio_ns, 1758024000123456789);
    assert!(extrair("g=A s=1").is_none());
    assert!(extrair("t=1 s=1").is_none());
    assert!(extrair("").is_none());
    assert!(extrair("g=A t=x1").is_none());
}

#[test]
fn extrai_o_ultimo_ate_os_dois() {
    let c = extrair("\tg=A g=B\x0ct=-5 g=C t=9").unwrap();
    assert_eq!((c.gerador.as_str(), c.envio_ns), ("B", -5));
    // Um instante ilegível apaga o anterior.
    let c = extrair("t=1 t=z g=A t=+3").unwrap();
    assert_eq!(c.envio_ns, 3);
    assert!(extrair("t=1 t=z g=A").is_none());
    // Só espaço ASCII separa palavras.
    let c = extrair("g=A\u{a0}B t=1").unwrap();
    assert_eq!(c.gerador, "A\u{a0}B");
    let c = extrair("g= t=1").unwrap();
    assert_eq!(c.gerador, "");
}

#[test]
fn latencia_em_microssegundos() {
    assert_eq!(calcular_latencia(1_000_000, 0), Some(1000));
    assert_eq!(calcular_latencia(1_999, 0), Some(1));
    assert_eq!(calcular_latencia(0, 0), Some(1));
    assert_eq!(calcular_latencia(0, 1), None);
    assert_eq!(calcular_latencia(i64::MAX, 0), Some(LATENCIA_MAXIMA_US));
    assert_eq!(calcular_latencia(0, i128::MIN), None);
}

#[test]
fn classifica_pelo_instante_e_pelo_corpo() {
    let mut inicio = sem_aquecimento();
    inicio.por("A", 100);
    let corpo = "g=A s=1 t=99";
    assert!(matches!(classificar_corpo(None, corpo, &inicio), Classe::Invalida));
    assert!(matches!(classificar_corpo(Some(None), corpo, &inicio), Classe::Invalida));
    assert!(matches!(classificar_corpo(Some(Some(500)), corpo, &inicio), Classe::Aquecimento));
    assert!(matches!(classificar_corpo(Some(Some(500)), "s=1", &inicio), Classe::Invalida));
    match classificar_corpo(Some(Some(9_100)), "g=A t=100", &inicio) {
        Classe::Recebida { gerador, latencia_us } => {
            assert_eq!(gerador, "A");
            assert_eq!(latencia_us, Some(9));
        }
        _ => panic!(),
    }
    assert!(matches!(
        classificar_corpo(Some(Some(50)), "g=B t=99", &inicio),
        Classe::Recebida { latencia_us: None, .. }
    ));
}

#[test]
fn classifica_linhas() {
    let t = sem_aquecimento();
    match classificar(&format!("  {CARIMBO} g=A t={}\r", RECEBIDO - 7_000), &t) {
        Classe::Recebida { gerador, latencia_us } => {
            assert_eq!(gerador, "A");
            assert_eq!(latencia_us, Some(7));
        }
        _ => panic!(),
    }
    assert!(matches!(classificar(" \u{3000}", &t), Classe::Vazia));
    assert!(matches!(classificar("", &t), Classe::Vazia));
    assert!(matches!(classificar(CARIMBO, &t), Classe::Invalida));
    assert!(matches!(classificar("ontem g=A t=1", &t), Classe::Invalida));
    // O carimbo é um instante, mas não cabe em 64 bits de nanossegundos.
    assert!(matches!(classificar("9999-01-01T00:00:00Z g=A t=1", &t), Classe::Invalida));
}

#[test]
fn coleta_de_varios_receptores() {
    let mut inicio = sem_aquecimento();
    inicio.por("B", (RECEBIDO - 1_000_000) as i128);
    let logs = vec![
        Some(vec![
            linha("A", RECEBIDO - 5_000_000),
            linha("B", RECEBIDO - 500_000),
            linha("B", RECEBIDO - 2_000_000),
            Some(String::new()),
            Some("lixo".to_string()),
            None,
        ]),
        None,
        Some(vec![linha("A", RECEBIDO + 1), linha("A", RECEBIDO - 1_000_000_000)]),
    ];
    let ag = coletar(&logs, &inicio);
    assert_eq!(ag.total_recebidas, 4);
    assert_eq!(ag.descartadas_aquecimento, 1);
    assert_eq!(ag.linhas_invalidas, 2);
    assert_eq!(ag.anomalias_relogio, 1);
    assert_eq!(ag.recebidas_por_gerador.ler("A"), 3);
    assert_eq!(ag.recebidas_por_gerador.ler("B"), 1);
    assert_eq!(ag.recebidas_por_gerador.ler("C"), 0);
    assert_eq!(ag.receptores.len(), 3);
    assert_eq!(ag.receptores[1].nome, "recv-2");
    assert_eq!(ag.receptores[1].recebidas, 0);
    assert_eq!(ag.receptores[0].recebidas, 2);
    assert_eq!(ag.receptores[0].por_gerador.ler("B"), 1);
    assert_eq!(ag.receptores[2].recebidas, 2);
    assert_eq!(ag.receptores.iter().map(|r| r.recebidas).sum::<u64>(), ag.total_recebidas);
    for g in ["A", "B", "C"] {
        let soma: u64 = ag.receptores.iter().map(|r| r.por_gerador.ler(g)).sum();
        assert_eq!(soma, ag.recebidas_por_gerador.ler(g));
    }
    assert_eq!(ag.receptores[0].percentil_us(50), 500);
    assert_eq!(ag.receptores[0].maximo_us(), 5_003);
    assert!(ag.origens.is_empty());
}

#[test]
fn coleta_em_partes_da_o_mesmo() {
    let inicio = sem_aquecimento();
    let todas: Vec<Option<String>> =
        (0..50).map(|i| linha(if i % 3 == 0 { "A" } else { "B" }, RECEBIDO - 1000 * i)).collect();
    let (a, b) = todas.split_at(17);
    let mut ag = Agregado::novo();
    let mut est = EstatReceptor::novo("recv-1".to_string());
    ag.absorver(&mut est, &a.to_vec(), &inicio);
    ag.absorver(&mut est, &b.to_vec(), &inicio);
    let junto = coletar(&vec![Some(todas.clone())], &inicio);
    assert_eq!(ag.total_recebidas, 50);
    assert_eq!(junto.total_recebidas, 50);
    assert_eq!(ag.recebidas_por_gerador.itens, junto.recebidas_por_gerador.itens);
    assert_eq!(est.recebidas, junto.receptores[0].recebidas);
    for p in [0, 1, 50, 90, 99, 100, 200] {
        assert_eq!(est.percentil_us(p), junto.receptores[0].percentil_us(p));
    }
    assert_eq!(est.maximo_us(), junto.receptores[0].maximo_us());
}

fn com_latencias(us: &[u64]) -> EstatReceptor {
    let mut ag = Agregado::novo();
    let mut est = EstatReceptor::novo("x".to_string());
    for u in us {
        ag.registrar(
            &mut est,
            &Classe::Recebida { gerador: "A".to_string(), latencia_us: Some(*u) },
        );
    }
    est
}

/// O topo da faixa em que um valor é contado.
fn topo(v: u64) -> u64 {
    let bits = 64 - v.leading_zeros();
    let largura = if bits <= 11 { 1 } else { 1u64 << (bits - 11) };
    v - v % largura + largura - 1
}

#[test]
fn percentis_do_histograma() {
    let vazio = com_latencias(&[]);
    assert_eq!(vazio.percentil_us(50), 0);
    assert_eq!(vazio.maximo_us(), 0);

    let cem: Vec<u64> = (1..=100).collect();
    let e = com_latencias(&cem);
    assert_eq!(e.percentil_us(50), 50);
    assert_eq!(e.percentil_us(90), 90);
    assert_eq!(e.percentil_us(99), 99);
    assert_eq!(e.percentil_us(100), 100);
    assert_eq!(e.percentil_us(0), 1);
    assert_eq!(e.percentil_us(255), 100);
    assert_eq!(e.maximo_us(), 100);

    let e = com_latencias(&[2047, 2048, 4097, LATENCIA_MAXIMA_US]);
    assert_eq!(e.percentil_us(25), 2047);
    assert_eq!(e.percentil_us(50), 2049);
    assert_eq!(e.percentil_us(75), 4099);
    assert_eq!(e.percentil_us(99), topo(LATENCIA_MAXIMA_US));
    assert_eq!(e.maximo_us(), topo(LATENCIA_MAXIMA_US));
    assert_eq!(com_latencias(&[4099]).percentil_us(0), 4096);
}

#[test]
fn percentil_alcanca_o_alvo() {
    let mut us: Vec<u64> = Vec::new();
    let mut x: u64 = 12345;
    for _ in 0..700 {
        x = x.wrapping_mul(6364136223846793005).wrapping_add(1442695040888963407);
        us.push((x >> 33) % (1 << (x % 25)) + 1);
    }
    let e = com_latencias(&us);
    for p in 1..=100u8 {
        let alvo = ((p as f64 / 100.0 * us.len() as f64).ceil() as usize).max(1);
        let r = e.percentil_us(p);
        assert!(us.iter().any(|v| topo(*v) == r));
        assert!(us.iter().filter(|v| **v <= r).count() >= alvo);
        assert!(us.iter().filter(|v| topo(**v) < r).count() < alvo);
    }
    assert_eq!(e.maximo_us(), topo(*us.iter().max().unwrap()));
    for p in 0..100u8 {
        assert!(e.percentil_us(p) <= e.percentil_us(p + 1));
    }
    assert!(e.percentil_us(100) <= e.maximo_us());
}

#[test]
fn tabela_em_ordem() {
    let mut t: Tabela<u64> = Tabela::nova();
    for k in ["b", "a", "c", "aa", "b", ""] {
        t.contar(k);
    }
    let chaves: Vec<&str> = t.itens.iter().map(|(k, _)| k.as_str()).collect();
    assert_eq!(chaves, ["", "a", "aa", "b", "c"]);
    assert_eq!(t.ler("b"), 2);
    assert_eq!(t.ler("z"), 0);
    assert_eq!(t.obter("z"), None);
    assert_eq!(t.somar(), 6);
    t.por("a", u64::MAX);
    assert_eq!(t.somar(), 4);
    assert_eq!(t.copia().itens, t.itens);
}

#[test]
fn confere_os_contadores_do_relay() {
    let linhas: Vec<String> = [
        "sem json",
        r#"Sep 16 12:00:00 relay: { "name": "imudp(*:5514)", "origin": "imudp", "submitted": 5 }"#,
        r#"{ "name": "imudp(*:5514)", "origin": "imudp", "submitted": 50 }"#,
        r#"{ "name": "imtcp(5514)", "origin": "imtcp", "submitted": 7 }"#,
        r#"{ "name": "w0", "origin": "imudp", "called.recvmsg": 7 }"#,
        r#"{ "name": "recv-1", "origin": "omfwd", "messages.sent": 3 }"#,
        r#"{ "name": "recv-1", "origin": "omfwd", "messages.sent": 30 }"#,
        r#"{ "name": "recv-2", "origin": "omfwd", "bytes.sent": 1 }"#,
        r#"{ "name": "action-0 queue", "origin": "core.queue", "size": 4, "full": 1, "discarded.full": 2, "discarded.nf": 3 }"#,
        r#"{ "name": "outra", "origin": "core.queue", "size": 99 }"#,
        r#"{ "origin": "core.queue" "#,
        r#"[{"origin": "omfwd"}]"#,
        r#"{ "origin": 5, "name": "omfwd" }"#,
    ]
    .iter()
    .map(|s| s.to_string())
    .collect();
    let c = conferir(&linhas);
    assert_eq!(c.recebidas_relay, 57);
    assert_eq!(c.encaminhadas, 30);
    assert_eq!(c.na_fila, 4);
    assert_eq!(c.descartadas_fila, 6);
    assert!(c.disponivel);
    // Os contadores são cumulativos: o log repetido diz o mesmo.
    let mut dobro = linhas.clone();
    dobro.extend(linhas);
    let d = conferir(&dobro);
    assert_eq!(
        (d.recebidas_relay, d.encaminhadas, d.na_fila, d.descartadas_fila, d.disponivel),
        (57, 30, 4, 6, true)
    );
}

#[test]
fn conferencia_indisponivel() {
    let c = conferir(&Vec::new());
    assert!(!c.disponivel);
    assert_eq!((c.recebidas_relay, c.encaminhadas, c.na_fila, c.descartadas_fila), (0, 0, 0, 0));
    // A fila sozinha não torna a conferência disponível.
    let c = conferir(&vec![r#"{"origin":"core.queue","name":"main Q","size":3}"#.to_string()]);
    assert!(!c.disponivel);
    assert_eq!(c.na_fila, 3);
}

fn natural(n: u64) -> Escalar {
    Escalar::Numero { natural: Some(n), inteiro: None, flutuante: None }
}

#[test]
fn vale_a_ultima_amostra() {
    let mut a = Amostras::novas();
    let membro = |k: &str, v: &str| (k.to_string(), Escalar::Texto(v.to_string()));
    for n in [10, 20, 15] {
        a.acrescentar(&vec![
            membro("origin", "imtcp"),
            membro("name", "x"),
            ("submitted".to_string(), natural(n)),
        ]);
    }
    a.acrescentar(&vec![membro("origin", "omfwd"), ("messages.sent".to_string(), Escalar::Outro)]);
    assert_eq!(a.recebidas.ler("imtcp/x"), 15);
    assert_eq!(a.encaminhadas.ler(""), 0);
    assert_eq!(a.encaminhadas.itens.len(), 1);
    let c = a.totalizar();
    assert_eq!(c.recebidas_relay, 15);
    assert!(c.disponivel);
}
