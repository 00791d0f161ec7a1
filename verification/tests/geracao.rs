use hugesyslogs::config::Proto;
use hugesyslogs::duracao::Duracao;
use hugesyslogs::gerador::{
    arquivo_do_relatorio, concluir, criar_enchimento, despedida, montar, montar_com,
    pode_usar_duracao, preparar, reunir, ArgsGerador, Desfecho, Passo, Preparo, Resultado,
    Tarefa, LOTE_MAXIMO,
};
use hugesyslogs::metricas::{classificar, extrair, Classe};
use hugesyslogs::percurso::RECORTE;
use hugesyslogs::reais::Real;
use hugesyslogs::tabela::Tabela;

fn r(x: f64) -> Real {
    Real { bits: x.to_bits() }
}

fn args(taxa: u64, threads: usize, total: u64, duracao: f64, aquecimento: f64) -> ArgsGerador {
    ArgsGerador {
        nome: "G".to_string(),
        proto: Proto::Tcp,
        alvo: "relay:5514".to_string(),
        taxa,
        threads,
        tamanho: 256,
        duracao: r(duracao),
        aquecimento: r(aquecimento),
        total,
        saida: "/out".to_string(),
    }
}

fn taxas(p: &Preparo) -> Vec<Option<u64>> {
    p.tarefas.iter().map(|t| t.taxa).collect()
}

fn cotas(p: &Preparo) -> Vec<Option<u64>> {
    p.tarefas.iter().map(|t| t.cota).collect()
}

/// O que a thread envia até `fim`, olhando o relógio de 10 em 10 milissegundos.
fn simular(t: &Tarefa, duracao: Duracao, fim: Duracao) -> Resultado {
    let mut s = Resultado::novo();
    let mut agora = Duracao::de_milis(0);
    while !agora.alcanca(fim) {
        match t.planejar(duracao, &s, false, agora) {
            Passo::Encerrar => break,
            Passo::Esperar => agora = agora.mais(Duracao::de_milis(10)).unwrap(),
            Passo::Enviar(lote) => {
                for _ in 0..lote {
                    if t.esta_cumprida(&s) {
                        break;
                    }
                    s.registrar(Desfecho::Enviado { bytes: 1 }, 0, 0, Proto::Udp);
                }
                if t.taxa.is_none() {
                    agora = agora.mais(Duracao::de_milis(10)).unwrap();
                }
            }
        }
    }
    s
}

#[test]
fn total_menor_que_as_threads() {
    let a = args(0, 4, 2, 0.0, 0.0);
    let p = preparar(&a, 0);
    assert_eq!(cotas(&p), [Some(1), Some(1), Some(0), Some(0)]);
    assert_eq!(taxas(&p), [None; 4]);
    assert!(p.tarefas[2].esta_cumprida(&res(0)));
    let um = Duracao::de_segundos(1);
    assert_eq!(p.tarefas[3].planejar(p.duracao, &res(0), false, um), Passo::Encerrar);
    let resultados: Vec<Option<Resultado>> =
        p.tarefas.iter().map(|t| Some(simular(t, p.duracao, um))).collect();
    let rel = concluir(&a, &p, 0, 1_000_000_000, &resultados);
    assert_eq!((rel.enviadas_total, rel.enviadas_uteis, rel.threads), (2, 2, 4));
}

#[test]
fn taxa_menor_que_as_threads() {
    let dez = Duracao::de_segundos(10);
    let a = args(2, 4, 0, 60.0, 0.0);
    let p = preparar(&a, 0);
    assert_eq!(taxas(&p), [Some(1), Some(1), Some(0), Some(0)]);
    assert_eq!(cotas(&p), [None; 4]);
    assert_eq!(p.tarefas[3].planejar(p.duracao, &res(0), false, dez), Passo::Esperar);
    let enviadas: u64 = p.tarefas.iter().map(|t| simular(t, p.duracao, dez).total).sum();
    assert!(enviadas <= 20 && enviadas >= 18);
    // O total fica com as threads que têm ritmo, e é todo enviado.
    let p = preparar(&args(2, 4, 5, 0.0, 0.0), 0);
    assert_eq!(cotas(&p), [Some(3), Some(2), Some(0), Some(0)]);
    let enviadas: Vec<u64> =
        p.tarefas.iter().map(|t| simular(t, p.duracao, dez).total).collect();
    assert_eq!(enviadas, [3, 2, 0, 0]);
}

#[test]
fn ritmo_nunca_se_adianta() {
    // O produto em ponto flutuante arredonda para 543398957329537.
    let t = Tarefa { taxa: Some(130_300_020_274), cota: None };
    let decorrido = Duracao { segundos: 4170, nanos: 367_404_294 };
    let max = Duracao::maxima();
    assert_eq!(t.planejar(max, &res(543_398_957_329_535), false, decorrido), Passo::Enviar(1));
    assert_eq!(t.planejar(max, &res(543_398_957_329_536), false, decorrido), Passo::Esperar);
    let rapida = Tarefa { taxa: Some(u64::MAX), cota: None };
    assert_eq!(rapida.planejar(max, &res(u64::MAX - 1), false, decorrido), Passo::Enviar(1));
}

#[test]
fn reparte_entre_as_threads() {
    let p = preparar(&args(10, 4, 7, 5.0, 1.5), 1_000);
    assert_eq!(taxas(&p), [Some(3), Some(3), Some(2), Some(2)]);
    assert_eq!(cotas(&p), [Some(2), Some(2), Some(2), Some(1)]);
    assert_eq!(p.inicio_medicao_ns, 1_500_001_000);
    assert_eq!(p.duracao, Duracao::de_segundos(5));
}

#[test]
fn partes_somam_o_total() {
    for (total, n) in [(0u64, 3usize), (1, 5), (100, 7), (u64::MAX, 13), (12, 12)] {
        let p = preparar(&args(total, n, total, 1.0, 0.0), 0);
        for partes in [taxas(&p), cotas(&p)] {
            // Zero é sem limite em todas as threads; senão nenhuma fica sem limite.
            assert!(partes.iter().all(|x| x.is_some() == (total > 0)));
            let soma: u128 = partes.iter().flatten().map(|x| *x as u128).sum();
            assert_eq!(soma, total as u128);
            let maior = partes.iter().flatten().max().unwrap_or(&0);
            let menor = partes.iter().flatten().min().unwrap_or(&0);
            assert!(maior - menor <= 1);
        }
    }
}

#[test]
fn sem_threads_usa_uma() {
    let p = preparar(&args(10, 0, 0, 1.0, 0.0), 0);
    assert_eq!(p.tarefas, [Tarefa { taxa: Some(10), cota: None }]);
}

#[test]
fn total_sem_duracao_nao_tem_limite() {
    assert!(pode_usar_duracao(1, r(-1.0)));
    assert!(pode_usar_duracao(0, r(0.0)));
    assert!(!pode_usar_duracao(0, r(-1.0)));
    assert!(!pode_usar_duracao(1, r(f64::NAN)));
    assert!(!pode_usar_duracao(0, r(1e30)));
    assert_eq!(preparar(&args(1, 1, 5, 0.0, 0.0), 0).duracao, Duracao::maxima());
    assert_eq!(preparar(&args(1, 1, 5, 2.0, 0.0), 0).duracao, Duracao::de_segundos(2));
}

fn res(total: u64) -> Resultado {
    Resultado { total, uteis: 0, bytes: 0, erros: 0 }
}

#[test]
fn planeja_o_ritmo() {
    let t = Tarefa { taxa: Some(100), cota: None };
    let dez = Duracao::de_segundos(10);
    let um = Duracao::de_segundos(1);
    assert_eq!(t.planejar(dez, &res(0), true, um), Passo::Encerrar);
    assert_eq!(t.planejar(dez, &res(0), false, dez), Passo::Encerrar);
    assert_eq!(t.planejar(dez, &res(0), false, um), Passo::Enviar(100));
    assert_eq!(t.planejar(dez, &res(60), false, um), Passo::Enviar(40));
    assert_eq!(t.planejar(dez, &res(100), false, um), Passo::Esperar);
    let rapida = Tarefa { taxa: Some(1_000_000), cota: None };
    assert_eq!(rapida.planejar(dez, &res(0), false, um), Passo::Enviar(LOTE_MAXIMO));
    let livre = Tarefa { taxa: None, cota: Some(5) };
    assert_eq!(livre.planejar(dez, &res(4), false, um), Passo::Enviar(LOTE_MAXIMO));
    assert_eq!(livre.planejar(dez, &res(5), false, um), Passo::Encerrar);
    assert!(!livre.esta_cumprida(&res(4)));
    assert!(livre.esta_cumprida(&res(5)));
    assert!(!t.esta_cumprida(&res(u64::MAX)));
}

#[test]
fn uma_thread_respeita_a_cota() {
    let t = Tarefa { taxa: None, cota: Some(3000) };
    let mut s = Resultado::novo();
    let mut agora: i128 = 0;
    while let Passo::Enviar(lote) =
        t.planejar(Duracao::maxima(), &s, false, Duracao::de_segundos(1))
    {
        assert!(lote >= 1 && lote <= LOTE_MAXIMO);
        for _ in 0..lote {
            if t.esta_cumprida(&s) {
                break;
            }
            agora += 1;
            let d = if agora % 10 == 0 { Desfecho::Falhou } else { Desfecho::Enviado { bytes: 7 } };
            s.registrar(d, agora, 1000, Proto::Udp);
        }
    }
    assert_eq!(s.total, 3000);
    // Cada mensagem enviada tem 7 bytes; as que falharam não contam.
    assert_eq!(s.bytes, 7 * s.total);
    assert_eq!(s.bytes, 21_000);
    assert_eq!(s.erros, 333);
    assert!(s.uteis < s.total && s.uteis > 0);
}

#[test]
fn registra_envios() {
    let mut s = Resultado::novo();
    assert!(!s.registrar(Desfecho::Enviado { bytes: 10 }, 99, 100, Proto::Tcp));
    assert!(!s.registrar(Desfecho::Enviado { bytes: 11 }, 100, 100, Proto::Tcp));
    assert!(s.registrar(Desfecho::Falhou, 100, 100, Proto::Tcp));
    assert!(!s.registrar(Desfecho::Falhou, 100, 100, Proto::Udp));
    assert_eq!(s, Resultado { total: 2, uteis: 1, bytes: 21, erros: 2 });
    assert_eq!(Resultado::sem_canal().erros, 1);
}

#[test]
fn conclui_o_relatorio() {
    let a = args(100, 0, 0, 5.0, 1.0);
    let p = preparar(&a, 1_000_000_000);
    let resultados = vec![
        Some(Resultado { total: 10, uteis: 8, bytes: 100, erros: 0 }),
        None,
        Some(Resultado { total: 5, uteis: 4, bytes: 50, erros: 2 }),
    ];
    assert_eq!(reunir(&resultados), Resultado { total: 15, uteis: 12, bytes: 150, erros: 3 });
    let rel = concluir(&a, &p, 1_000_000_000, 6_000_000_000, &resultados);
    assert_eq!(rel.nome, "G");
    assert_eq!(rel.proto, "tcp");
    assert_eq!(rel.threads, 1);
    assert_eq!(rel.inicio_medicao_ns, 2_000_000_000);
    assert_eq!(rel.enviadas_total, 15);
    assert_eq!(rel.enviadas_uteis, 12);
    assert_eq!(rel.bytes_enviados, 150);
    assert_eq!(rel.erros_envio, 3);
    assert_eq!(f64::from_bits(rel.taxa_real.bits), 12.0 / 4.0);
    assert_eq!(
        despedida(&rel, Duracao::de_milis(5_250)),
        "gerador G: 15 mensagens em 5.2s (3 msg/s), 3 erros"
    );
    let cedo = concluir(&a, &p, 1_000_000_000, 1_500_000_000, &resultados);
    assert_eq!(f64::from_bits(cedo.taxa_real.bits), 0.0);
    assert_eq!(arquivo_do_relatorio("G"), "gerador-G.json");
}

const TS: &str = "2026-09-16T12:00:00.123456Z";

#[test]
fn quadro_completado() {
    let e = criar_enchimento(128);
    let q = montar_com(TS, "A", 128, 4211, 1758024000123456789, &e);
    let comeco = "<134>1 2026-09-16T12:00:00.123456Z A hsb - - - g=A s=4211 t=1758024000123456789 A";
    assert!(q.starts_with(comeco));
    assert!(q[comeco.len()..].chars().all(|c| c == 'A'));
    assert_eq!(q.len(), 128);
}

#[test]
fn quadro_cortado() {
    let e = criar_enchimento(20);
    let q = montar_com(TS, "A", 20, 1, 2, &e);
    assert_eq!(q, "<134>1 2026-09-16T12");
    let e = criar_enchimento(0);
    assert_eq!(montar_com(TS, "A", 0, 1, 2, &e), "");
    let cru = "<134>1 x A hsb - - - g=A s=1 t=-2";
    let e = criar_enchimento(cru.len());
    assert_eq!(montar_com("x", "A", cru.len(), 1, -2, &e), cru);
    let e = criar_enchimento(cru.len() + 1);
    assert_eq!(montar_com("x", "A", cru.len() + 1, 1, -2, &e), format!("{cru} "));
}

#[test]
fn quadro_com_a_hora_corrente() {
    let e = criar_enchimento(300);
    let q = montar("nome", 300, 9, 12345, &e).unwrap();
    assert_eq!(q.len(), 300);
    let partes: Vec<&str> = q.split(' ').collect();
    assert_eq!(partes[0], "<134>1");
    let hora = chrono::DateTime::parse_from_rfc3339(partes[1]).unwrap();
    assert!((chrono::Utc::now() - hora.to_utc()).num_seconds().abs() < 60);
    assert!(partes[1].ends_with('Z') && partes[1].len() == 27);
    assert_eq!(&partes[2..9], ["nome", "hsb", "-", "-", "-", "g=nome", "s=9"]);
    assert_eq!(partes[9], "t=12345");
}

#[test]
fn corte_no_meio_de_um_caractere() {
    // O cabeçalho tem 35 bytes até o nome; o corte cai no segundo byte de `ã`.
    let e = criar_enchimento(36);
    assert!(montar("ã", 36, 0, 0, &e).is_none());
    let e = criar_enchimento(37);
    assert!(montar("ã", 37, 0, 0, &e).unwrap().ends_with("Z ã"));
}

#[test]
fn medicao_volta_do_recorte() {
    let nome = "gerador-de_teste";
    let e = criar_enchimento(128);
    let q = montar_com(TS, nome, 128, u64::MAX, 9_999_999_999_999_999_999_999, &e);
    assert_eq!(q.len(), 128);
    let corpo = q.split_once(" - - - ").unwrap().1;
    let recorte: String = corpo.chars().take(RECORTE).collect();
    let c = extrair(&recorte).unwrap();
    assert_eq!(c.gerador, nome);
    assert_eq!(c.envio_ns, 9_999_999_999_999_999_999_999);
    // Com o carimbo mais longo, de um ano de seis algarismos.
    let ts = "+262142-12-31T23:59:59.999999Z";
    let q = montar_com(ts, nome, 128, u64::MAX, 9_999_999_999_999_999_999, &e);
    assert!(q.ends_with(" t=9999999999999999999"));
    assert_eq!(extrair(&q).unwrap().envio_ns, 9_999_999_999_999_999_999);
}

#[test]
fn medicao_volta_do_quadro_inteiro() {
    let e = criar_enchimento(128);
    for nome in ["A", "t-g_", "gerador-de_teste"] {
        for agora in [0, 1_789_570_800_000_000_000] {
            let q = montar(nome, 128, 7, agora, &e).unwrap();
            let c = extrair(&q).unwrap();
            assert_eq!((c.gerador.as_str(), c.envio_ns), (nome, agora));
        }
    }
}

#[test]
fn nome_e_sequencia_identificam() {
    let e = criar_enchimento(200);
    let corpo = |nome: &str, seq: u64| {
        let q = montar_com(TS, nome, 200, seq, 5, &e);
        q.split_once(" - - - ").unwrap().1.to_string()
    };
    let todos = [corpo("A", 1), corpo("A", 11), corpo("A1", 1), corpo("B", 1), corpo("A", 2)];
    for i in 0..todos.len() {
        for j in 0..i {
            assert_ne!(todos[i], todos[j]);
        }
    }
}

#[test]
fn linha_gravada_conta_para_o_gerador() {
    let agora: i128 = 1_789_570_800_000_000_000;
    let e = criar_enchimento(512);
    let q = montar_com(TS, "A", 512, 1, agora, &e);
    let recorte: String = q.split_once(" - - - ").unwrap().1.chars().take(RECORTE).collect();
    let linha = format!("2026-09-16T12:00:00.000250-03:00 {recorte}");
    match classificar(&linha, &Tabela::nova()) {
        Classe::Recebida { gerador, latencia_us } => {
            assert_eq!(gerador, "A");
            assert_eq!(latencia_us, Some(250));
        }
        _ => panic!(),
    }
    let mut inicio = Tabela::nova();
    inicio.por("A", agora + 1);
    assert!(matches!(classificar(&linha, &inicio), Classe::Aquecimento));
}
