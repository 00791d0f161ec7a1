use hugesyslogs::texto::{
    aparar, contem_trecho, decimal, decimal_com_sinal, eh_espaco, eh_espaco_ascii, iguais,
    por_a_direita, por_a_esquerda, vem_antes,
};

#[test]
fn espacos_como_os_da_biblioteca_padrao() {
    for u in 0..=0x10ffff {
        if let Some(c) = char::from_u32(u) {
            assert_eq!(eh_espaco(c), c.is_whitespace(), "{u:x}");
            assert_eq!(eh_espaco_ascii(c), c.is_ascii_whitespace(), "{u:x}");
        }
    }
}

#[test]
fn textos_como_os_da_biblioteca_padrao() {
    let textos = ["", " ", "a", " a b ", "\u{2003}ç\n", "ab", "aba", "é", "z", "\u{1f600}", "aç"];
    for a in textos {
        assert_eq!(aparar(a), a.trim());
        for b in textos {
            assert_eq!(iguais(a, b), a == b);
            assert_eq!(contem_trecho(a, b), a.contains(b), "{a:?} {b:?}");
            assert_eq!(vem_antes(a, b), a < b, "{a:?} {b:?}");
        }
        for w in [0usize, 1, 3, 7] {
            let mut e = "x".to_string();
            por_a_esquerda(&mut e, a, w);
            assert_eq!(e, format!("x{a:<w$}"));
            let mut d = "x".to_string();
            por_a_direita(&mut d, a, w);
            assert_eq!(d, format!("x{a:>w$}"));
        }
    }
}

#[test]
fn numerais_inteiros() {
    for n in [0u128, 9, 10, 1234567890, u64::MAX as u128, u128::MAX] {
        assert_eq!(decimal(n), n.to_string());
    }
    for n in [0i128, -1, 42, i128::MIN, i128::MAX] {
        assert_eq!(decimal_com_sinal(n), n.to_string());
    }
}
