use validador_csv::caracteres::{caracteres_corruptos, es_caracter_corrupto};

#[test]
fn caracteres_validos() {
    for c in "azAZ09 \t\n\r.,;:()\"'¿?¡!-_/áéíóúÁÉÍÓÚñÑüÜ“”%°ºª€$".chars() {
        assert!(!es_caracter_corrupto(c));
    }
}

#[test]
fn caracteres_invalidos() {
    for c in ['\u{fffd}', '\0', '\u{b}', '\u{c}', '\u{1f}', '\u{7f}', '\u{80}', 'Ã', '@', '#', '&', '日'] {
        assert!(es_caracter_corrupto(c));
    }
}

#[test]
fn filas_de_cada_caracter() {
    let r = caracteres_corruptos("a#b@\r\nlimpia\n@@#\nfin\u{fffd}");
    let vistas: Vec<(&str, &[u64])> =
        r.iter().map(|c| (c.caracter.as_str(), c.filas.as_slice())).collect();
    assert_eq!(
        vistas,
        vec![("#", &[1u64, 3][..]), ("@", &[1, 3][..]), ("\u{fffd}", &[4][..])]
    );
}

#[test]
fn texto_sin_danos() {
    assert!(caracteres_corruptos("").is_empty());
    assert!(caracteres_corruptos("a,b\n1,2\n\n").is_empty());
}

#[test]
fn lineas_vacias_cuentan() {
    let r = caracteres_corruptos("\n\n#\n");
    assert_eq!(r.len(), 1);
    assert_eq!(r[0].filas, vec![3]);
}
