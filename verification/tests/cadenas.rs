use validador_csv::cadena::{
    componer_validacion, es_prohibida, quitar_articulos, quitar_marcas, recortar, validar_cadena,
};
use validador_csv::texto::{caracteres, contiene, partir, quitar, reemplazar, unir};

#[test]
fn nombre_limpio_no_tiene_errores() {
    let v = validar_cadena("ventas_2024");
    assert_eq!(v.cadena, "ventas_2024");
    assert_eq!(v.sugerido, "ventas_2024");
    assert!(v.incidencia);
    assert!(v.errores.is_empty());
}

#[test]
fn nombre_con_todos_los_errores() {
    let v = validar_cadena(" El Año de la Canción #1 ");
    assert_eq!(v.cadena, " El Año de la Canción #1 ");
    assert_eq!(v.sugerido, "anio_cancion__1");
    assert!(!v.incidencia);
    assert_eq!(
        v.errores,
        vec![
            "Incluye espacios vacíos al inicio o al final",
            "Incluye mayúsculas",
            "Incluye la letra ñ",
            "Incluye acentos",
            "Incluye espacios",
            "Incluye artículos o preposiciones",
            "Incluye otros carácteres especiales",
        ]
    );
}

#[test]
fn cada_error_por_separado() {
    let casos = [
        ("\u{a0}ventas\u{3000}", "ventas", "Incluye espacios vacíos al inicio o al final"),
        ("VENTAS", "ventas", "Incluye mayúsculas"),
        ("caña", "cania", "Incluye la letra ñ"),
        ("acción", "accion", "Incluye acentos"),
        ("total anual", "total_anual", "Incluye espacios"),
        ("total_de_ventas", "total_ventas", "Incluye artículos o preposiciones"),
        ("precio-venta", "precio_venta", "Incluye otros carácteres especiales"),
    ];
    for (cadena, sugerido, error) in casos {
        let v = validar_cadena(cadena);
        assert_eq!(v.sugerido, sugerido);
        assert_eq!(v.errores, vec![error]);
        assert!(!v.incidencia);
    }
}

#[test]
fn guiones_bajos_de_mas_cuentan_como_articulos() {
    let v = validar_cadena("__a__b__");
    assert_eq!(v.sugerido, "b");
    assert_eq!(v.errores, vec!["Incluye artículos o preposiciones"]);
}

#[test]
fn cadena_vacia() {
    let v = validar_cadena("");
    assert_eq!(v.sugerido, "");
    assert!(v.incidencia);
    assert!(v.errores.is_empty());
    let v = validar_cadena(" \t\n");
    assert_eq!(v.sugerido, "");
    assert_eq!(v.errores, vec!["Incluye espacios vacíos al inicio o al final"]);
}

#[test]
fn el_sugerido_es_de_letras_digitos_y_guiones() {
    for cadena in ["Ω β", "año—2020", "ÀÉÎÕÜ", "日本", "a/b\\c", "ﬁn"] {
        let v = validar_cadena(cadena);
        assert!(v
            .sugerido
            .chars()
            .all(|c| c.is_ascii_lowercase() || c.is_ascii_digit() || c == '_'));
        assert_eq!(v.incidencia, v.errores.is_empty());
    }
    assert_eq!(validar_cadena("ÀÉÎÕÜ").sugerido, "aeiou");
    assert_eq!(validar_cadena("日本").sugerido, "__");
}

#[test]
fn el_sugerido_puede_tener_otro_sugerido() {
    assert_eq!(validar_cadena("a-b").sugerido, "a_b");
    assert_eq!(validar_cadena("a_b").sugerido, "b");
}

#[test]
fn dos_pasadas_y_los_bordes() {
    for cadena in ["El-la_Casa", "a-b", "x--z", "Año de-la Ñ", "", "日本"] {
        let dos = validar_cadena(&validar_cadena(cadena).sugerido).sugerido;
        let tres = validar_cadena(&dos);
        assert_eq!(tres.sugerido, dos);
        assert!(tres.incidencia);
        let con_bordes = format!("\t {cadena}\u{a0}");
        assert_eq!(validar_cadena(&con_bordes).sugerido, validar_cadena(cadena).sugerido);
    }
    assert_eq!(validar_cadena("x--z").sugerido, "x__z");
    assert_eq!(validar_cadena("x__z").sugerido, "x_z");
}

#[test]
fn una_pasada_y_los_mensajes() {
    let v = validar_cadena("El Año de la Canción");
    assert_eq!(v.sugerido, "anio_cancion");
    assert!(validar_cadena(&v.sugerido).incidencia);
    let con_bordes = validar_cadena("  El Año de la Canción\n");
    assert_eq!(con_bordes.errores[0], "Incluye espacios vacíos al inicio o al final");
    assert_eq!(con_bordes.errores[1..], v.errores[..]);
}

#[test]
fn componer_a_partir_de_los_pasos() {
    let v = componer_validacion(" Ñu ", "Ñu", "ñu", "niu");
    assert_eq!(v.sugerido, "niu");
    assert_eq!(
        v.errores,
        vec![
            "Incluye espacios vacíos al inicio o al final",
            "Incluye mayúsculas",
            "Incluye la letra ñ",
        ]
    );
    let v = componer_validacion("x", "x", "x", "e\u{301} y");
    assert_eq!(v.sugerido, "");
    assert_eq!(
        v.errores,
        vec!["Incluye acentos", "Incluye espacios", "Incluye artículos o preposiciones"]
    );
}

#[test]
fn recortar_blancos() {
    assert_eq!(recortar("  a b\u{2003}"), "a b");
    assert_eq!(recortar("\u{200b}a"), "\u{200b}a");
    assert_eq!(recortar("   "), "");
    assert_eq!(recortar("a"), "a");
}

#[test]
fn marcas_y_articulos() {
    assert_eq!(quitar_marcas("e\u{300}a\u{36f}o\u{370}"), "eao\u{370}");
    assert_eq!(quitar_articulos("el_gato_y_la_casa"), "gato_casa");
    assert_eq!(quitar_articulos("de_la"), "");
    assert!(es_prohibida("segun"));
    assert!(es_prohibida("u"));
    assert!(!es_prohibida("según"));
    assert!(!es_prohibida("casa"));
}

#[test]
fn partir_y_unir() {
    assert_eq!(partir("a_b__c", '_'), vec!["a", "b", "", "c"]);
    assert_eq!(partir("", '_'), vec![""]);
    assert_eq!(partir("_", '_'), vec!["", ""]);
    for s in ["", "_", "a", "a_b__c_"] {
        assert_eq!(unir(&partir(s, '_'), '_'), s);
    }
    assert_eq!(unir(&vec![], '_'), "");
    let piezas = vec!["a".to_string(), "".to_string(), "b-c".to_string()];
    assert_eq!(partir(&unir(&piezas, '_'), '_'), piezas);
}

#[test]
fn reemplazar_y_quitar() {
    assert_eq!(reemplazar("ñañ", 'ñ', "ni"), "niani");
    assert_eq!(reemplazar("abc", 'x', "y"), "abc");
    assert_eq!(quitar("a.csv.csv", ".csv"), "a");
    assert_eq!(quitar("a..csvcsv", ".csv"), "a.csv");
    assert_eq!(quitar("abc", ""), "abc");
    assert_eq!(quitar("aaa", "aa"), "a");
    assert!(contiene("x_duplicated_0", "_duplicated_"));
    assert!(!contiene("duplicated", "_duplicated_"));
    assert!(contiene("abc", ""));
    assert!(contiene("", ""));
    assert!(contiene("abc", "c"));
    assert_eq!(caracteres("ñu"), vec!['ñ', 'u']);
}
