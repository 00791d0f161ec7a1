use hugesyslogs::duracao::{analisar_duracao, duracao_estoura, Duracao, ErroDuracao};
use hugesyslogs::inteiros::{ler_i128, ler_i64};
use hugesyslogs::leitura::ler;
use hugesyslogs::numerais::escrever;
use hugesyslogs::reais::Real;

fn r(x: f64) -> Real {
    Real { bits: x.to_bits() }
}

fn mesmo(a: Real, b: f64) -> bool {
    a.bits == b.to_bits() || (f64::from_bits(a.bits).is_nan() && b.is_nan())
}

/// Números interessantes e uma sequência pseudoaleatória de padrões de bits.
fn amostra() -> Vec<f64> {
    let mut v = vec![
        0.0,
        -0.0,
        1.0,
        -1.0,
        0.5,
        0.1,
        1.5,
        2.5,
        3.0,
        100.0,
        1e9,
        1e-9,
        0.001,
        3600.0,
        1e300,
        -1e300,
        1e-300,
        5e-324,
        2.2250738585072014e-308,
        2.225073858507201e-308,
        f64::MAX,
        f64::MIN,
        f64::INFINITY,
        f64::NEG_INFINITY,
        f64::NAN,
        9007199254740993.0,
        18446744073709551615.0,
        4503599627370495.5,
        0.49999999999999994,
    ];
    let mut x: u64 = 0x9e37_79b9_7f4a_7c15;
    for i in 0..60 {
        x = x.wrapping_mul(6364136223846793005).wrapping_add(1442695040888963407);
        v.push(f64::from_bits(x));
        // Também números de ordem de grandeza comum.
        v.push(((x >> 20) as f64) / 1024.0 * if i % 2 == 0 { 1.0 } else { -1.0 });
    }
    v
}

#[test]
fn aritmetica_igual_a_da_maquina() {
    let v = amostra();
    for &a in &v {
        for &b in &v {
            assert!(mesmo(r(a).somar(r(b)), a + b), "{a:e} + {b:e}");
            assert!(mesmo(r(a).subtrair(r(b)), a - b), "{a:e} - {b:e}");
            assert!(mesmo(r(a).multiplicar(r(b)), a * b), "{a:e} * {b:e}");
            assert!(mesmo(r(a).dividir(r(b)), a / b), "{a:e} / {b:e}");
            assert_eq!(r(a).ate(r(b)), a <= b, "{a:e} <= {b:e}");
            assert_eq!(r(a).abaixo(r(b)), a < b, "{a:e} < {b:e}");
            if a != 0.0 || b != 0.0 {
                assert!(mesmo(r(a).maior(r(b)), a.max(b)), "max({a:e}, {b:e})");
            }
        }
    }
}

#[test]
fn conversoes_iguais_as_da_maquina() {
    for a in amostra() {
        assert_eq!(r(a).truncar_u64(), a as u64, "{a:e}");
        assert_eq!(r(a).truncar_i128(), a as i128, "{a:e}");
        assert_eq!(r(a).arredondar_u64(), a.round() as u64, "{a:e}");
        assert!(mesmo(r(a).sem_sinal(), a.abs()), "{a:e}");
        assert!(mesmo(r(a).negar(), -a), "{a:e}");
        match Duracao::de_real(r(a)) {
            Some(d) => {
                let m = std::time::Duration::try_from_secs_f64(a).unwrap();
                assert_eq!((d.segundos, d.nanos), (m.as_secs(), m.subsec_nanos()), "{a:e}");
                assert_eq!(d.em_segundos().bits, m.as_secs_f64().to_bits(), "{a:e}");
            }
            None => assert!(std::time::Duration::try_from_secs_f64(a).is_err(), "{a:e}"),
        }
    }
    for n in [0u64, 1, 999, 1 << 53, (1 << 53) + 1, u64::MAX, u64::MAX - 1023] {
        assert_eq!(Real::de_u64(n).bits, (n as f64).to_bits());
        assert_eq!(Real::de_i128(-(n as i128)).bits, (-(n as i128) as f64).to_bits());
    }
    assert_eq!(Real::de_i128(i128::MIN).bits, (i128::MIN as f64).to_bits());
}

#[test]
fn escrita_igual_a_da_biblioteca_padrao() {
    for a in amostra() {
        for casas in [0usize, 1, 2, 3, 10, 25] {
            assert_eq!(escrever(r(a), casas, false), format!("{a:.casas$}"));
            assert_eq!(escrever(r(a), casas, true), format!("{a:+.casas$}"));
        }
    }
    assert_eq!(escrever(r(0.125), 2, false), "0.12");
    assert_eq!(escrever(r(0.375), 2, false), "0.38");
}

#[test]
fn leitura_igual_a_da_biblioteca_padrao() {
    let textos = [
        "0", "1", "-1", "+1", "1.5", ".5", "5.", ".", "", "-", "+", "1e3", "1E3", "1e+3", "1e-3",
        "1e", "e1", "1e400", "1e-400", "-1e400", "inf", "-inf", "Infinity", "+INFINITY", "nan",
        "NaN", "-nan", "infin", "1_000", " 1", "1 ", "0x10", "179769313486231580793728971405301e276",
        "1.7976931348623157e308", "1.7976931348623159e308", "4.9406564584124654e-324",
        "2.4703282292062327e-324", "2.4703282292062328e-324", "9007199254740993",
        "9007199254740992.9999999999999999999999999999", "0.1", "123456789012345678901234567890",
        "1e99999999999999999999", "0e99999999999999999999", "1e-99999999999999999999", "--1", "1..2",
        "0.000000000000000000000000000000000000000000000000000000000000001e60",
    ];
    for t in textos {
        let meu = ler(&t.chars().collect());
        match t.parse::<f64>() {
            Ok(x) => assert!(mesmo(meu.expect(t), x), "{t}"),
            Err(_) => assert!(meu.is_none(), "{t}"),
        }
    }
    for a in amostra() {
        let t = format!("{a:e}");
        assert!(mesmo(ler(&t.chars().collect()).expect(&t), t.parse::<f64>().unwrap()), "{t}");
    }
}

#[test]
fn inteiros_iguais_aos_da_biblioteca_padrao() {
    let textos = [
        "0", "7", "-7", "+7", "", "-", "+", "12a", " 1", "9223372036854775807",
        "9223372036854775808", "-9223372036854775808", "-9223372036854775809",
        "170141183460469231731687303715884105727", "170141183460469231731687303715884105728",
        "-170141183460469231731687303715884105728", "-170141183460469231731687303715884105729",
        "999999999999999999999999999999999999999999", "0000000000000000000000000000000000000000001",
    ];
    for t in textos {
        assert_eq!(ler_i128(t), t.parse::<i128>().ok(), "{t}");
        assert_eq!(ler_i64(t), t.parse::<i64>().ok(), "{t}");
    }
}

#[test]
fn duracao_aceita_sufixos() {
    assert_eq!(analisar_duracao("60s").unwrap(), Duracao::de_segundos(60));
    assert_eq!(analisar_duracao("5m").unwrap(), Duracao::de_segundos(300));
    assert_eq!(analisar_duracao("1h").unwrap(), Duracao::de_segundos(3600));
    assert_eq!(
        analisar_duracao("500ms").unwrap(),
        Duracao::de_milis(500)
    );
    assert_eq!(analisar_duracao("30").unwrap(), Duracao::de_segundos(30));
}

#[test]
fn cinco_grafias_da_mesma_duracao() {
    for k in [0u64, 1, 7, 29, 100, 333, 1000, 4097, 987_654_321, 2_500_000_000] {
        let esperada = Duracao::de_segundos(3600 * k);
        for texto in [
            format!("{k}h"),
            format!("{}m", 60 * k),
            format!("{}s", 3600 * k),
            format!("{}", 3600 * k),
            format!("{}ms", 3_600_000 * k),
        ] {
            assert_eq!(analisar_duracao(&texto).unwrap(), esperada, "{texto}");
        }
    }
}

#[test]
fn duracao_rejeita_lixo() {
    assert!(analisar_duracao("abc").is_err());
    assert!(analisar_duracao("-5s").is_err());
    assert!(analisar_duracao("").is_err());
}

#[test]
fn duracao_erros_e_mensagens() {
    assert!(matches!(analisar_duracao("  "), Err(ErroDuracao::Vazia)));
    assert_eq!(analisar_duracao("").unwrap_err().mensagem(), "duração vazia");
    assert_eq!(
        analisar_duracao("1\"s").unwrap_err().mensagem(),
        "duração inválida: \"1\\\"s\""
    );
    assert_eq!(analisar_duracao("inf").unwrap_err().mensagem(), "duração inválida: \"inf\"");
    assert_eq!(analisar_duracao(" 1.5 m ").unwrap(), Duracao::de_segundos(90));
    assert!(duracao_estoura("1e300h"));
    assert!(!duracao_estoura("1e15h"));
    assert!(!duracao_estoura("abc"));
}

#[test]
fn duracao_soma_e_compara() {
    let a = Duracao::de_milis(1_700);
    let b = Duracao::de_milis(400);
    assert_eq!(a.mais(b), Some(Duracao::de_milis(2_100)));
    assert_eq!(Duracao::maxima().mais(b), None);
    assert!(a.alcanca(b) && a.alcanca(a) && !b.alcanca(a));
    assert!(Duracao::de_segundos(0).zerada() && !b.zerada());
}
