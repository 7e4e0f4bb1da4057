use validador_csv::codificacion::{decodificar, detectar_codificacion, tomar_muestra, TAM_MUESTRA};

#[test]
fn muestra_con_ceros() {
    let m = tomar_muestra(b"abc");
    assert_eq!(m.len(), TAM_MUESTRA);
    assert_eq!(&m[..4], &[b'a', b'b', b'c', 0]);
    let largo = vec![7u8; TAM_MUESTRA + 10];
    assert_eq!(tomar_muestra(&largo), vec![7u8; TAM_MUESTRA]);
}

#[test]
fn utf_8_bien_formado() {
    let e = detectar_codificacion(&tomar_muestra("año,canción\n".as_bytes()));
    assert_eq!(e.name(), "UTF-8");
    assert_eq!(decodificar(e, "año".as_bytes()), "año");
}

#[test]
fn latin_1_se_adivina() {
    let bytes = b"nombre,ciudad\nMu\xf1oz,Canc\xfan\nP\xe9rez,Le\xf3n\n";
    let e = detectar_codificacion(&tomar_muestra(bytes));
    assert_eq!(e.name(), "windows-1252");
    assert_eq!(decodificar(e, bytes), "nombre,ciudad\nMuñoz,Cancún\nPérez,León\n");
}

#[test]
fn caracter_cortado_entre_bloques() {
    let mut texto = "a".repeat(2047);
    texto.push('ñ');
    texto.push_str(&"b".repeat(3000));
    assert_eq!(decodificar(encoding_rs::UTF_8, texto.as_bytes()), texto);
}

#[test]
fn secuencias_mal_formadas() {
    assert_eq!(decodificar(encoding_rs::UTF_8, b"a\xffb\xc3"), "a\u{fffd}b\u{fffd}");
    assert_eq!(decodificar(encoding_rs::UTF_8, b""), "");
}

#[test]
fn marca_de_orden_de_bytes() {
    assert_eq!(decodificar(encoding_rs::UTF_8, b"\xef\xbb\xbfa"), "a");
    assert_eq!(decodificar(encoding_rs::UTF_8, b"\xff\xfea\0"), "a");
}

#[test]
fn el_inicio_decide_la_codificacion() {
    let nombre = |bytes: &[u8]| detectar_codificacion(&tomar_muestra(bytes)).name();
    let mut a = vec![b'x'; 4094];
    a.extend_from_slice("ñ".as_bytes());
    let mut b = a.clone();
    b.extend_from_slice(b"\xff\xf1");
    assert_eq!(nombre(&a), "UTF-8");
    assert_eq!(nombre(&b), "UTF-8");
    let mut cortado = vec![b'x'; 4095];
    cortado.extend_from_slice("ñ".as_bytes());
    assert_ne!(nombre(&cortado), "UTF-8");
    assert_eq!(nombre("corto ñ".as_bytes()), "UTF-8");
    assert_eq!(nombre(b"\xff\xfea\x00"), "UTF-8");
    assert_ne!(nombre(b"\xf1 a\xf1o"), "UTF-8");
}
