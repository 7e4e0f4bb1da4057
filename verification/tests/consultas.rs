use polars::prelude::{DataFrame, DataType, NamedFrom, Series};
use validador_csv::consulta::{
    eliminar_columna, estructurar, fetch_rows, guardar_renombrada, inicio_de_bloque,
    transformar_columnas,
};
use validador_csv::reporte::{construir_tabla, leer_csv, ContenedorDatos};

fn estado(contenido: &[u8]) -> ContenedorDatos {
    leer_csv("x.csv", contenido, contenido).unwrap().1
}

fn nombres(e: &ContenedorDatos) -> Vec<String> {
    e.dataframe.as_ref().unwrap().get_column_names().iter().map(|n| n.to_string()).collect()
}

#[test]
fn inicios_de_bloques() {
    assert_eq!(inicio_de_bloque(1, 50), Ok(0));
    assert_eq!(inicio_de_bloque(3, 50), Ok(100));
    assert_eq!(inicio_de_bloque(3, 0), Ok(0));
    assert_eq!(
        inicio_de_bloque(2, usize::MAX),
        Err("No se pudieron recuperar las filas".to_string())
    );
}

#[test]
fn bloques_de_filas() {
    let e = estado(b"a,b\n1,x\n2,y\n3,z\n");
    assert_eq!(fetch_rows(1, 2, &e).unwrap().to_string(), r#"[{"a":1,"b":"x"},{"a":2,"b":"y"}]"#);
    assert_eq!(fetch_rows(2, 2, &e).unwrap().to_string(), r#"[{"a":3,"b":"z"}]"#);
    assert_eq!(fetch_rows(3, 2, &e).unwrap().to_string(), "[]");
    assert_eq!(
        fetch_rows(2, usize::MAX, &e),
        Err("No se pudieron recuperar las filas".to_string())
    );
}

#[test]
fn bloque_fuera_de_rango_sin_tabla() {
    let e = ContenedorDatos { dataframe: None };
    assert_eq!(
        fetch_rows(2, 9223372036854775808, &e),
        Err("No se pudieron recuperar las filas".to_string())
    );
}

#[test]
fn los_bloques_cubren_la_tabla() {
    let e = estado(b"a\n1\n2\n3\n4\n5\n6\n7\n");
    let valores = |k: usize, b: usize| -> Vec<i64> {
        let v = fetch_rows(k, b, &e).unwrap();
        assert_eq!(fetch_rows(k, b, &e).unwrap(), v);
        v.as_array().unwrap().iter().map(|f| f["a"].as_i64().unwrap()).collect()
    };
    for b in 1..9 {
        let bloques = (7 + b - 1) / b;
        let mut juntos = Vec::new();
        for k in 1..bloques + 1 {
            let v = valores(k, b);
            assert!(k == bloques || v.len() == b);
            juntos.extend(v);
        }
        assert_eq!(juntos, vec![1, 2, 3, 4, 5, 6, 7]);
    }
}

#[test]
fn bloques_con_caracteres_que_se_escapan() {
    let e = estado(b"\"a\"\"\",b\\\n\"x\ty\",1e300\nz,\n");
    let v = fetch_rows(1, 5, &e).unwrap();
    assert_eq!(v[0]["b\\"].as_f64(), Some(1e300));
    assert!(v[1]["b\\"].is_null());
    assert_eq!(v.as_array().unwrap().len(), 2);
}

#[test]
fn renombrar_columnas_de_fechas() {
    let dias = Series::new("dia".into(), vec![0i32, 1]);
    let df = DataFrame::new(vec![dias.cast(&DataType::Date).unwrap().into()]).unwrap();
    let mut e = ContenedorDatos { dataframe: Some(df) };
    transformar_columnas(&vec![("dia", "fecha", "")], &mut e).unwrap();
    assert_eq!(nombres(&e), vec!["fecha"]);
    eliminar_columna("fecha", &mut e);
    assert!(nombres(&e).is_empty());
}

#[test]
fn json_mal_formado() {
    assert_eq!(estructurar(Ok(b"[1]".to_vec())).unwrap().to_string(), "[1]");
    assert!(estructurar(Ok(b"[1".to_vec())).unwrap_err().starts_with("Error al estructurar el JSON: "));
    let e = polars::prelude::PolarsError::NoData("nada".into());
    assert!(estructurar(Err(e)).unwrap_err().starts_with("Error de formato al escribir JSON: "));
}

#[test]
fn eliminar_una_columna() {
    let mut e = estado(b"a,b,c\n1,2,3\n");
    eliminar_columna("b", &mut e);
    assert_eq!(nombres(&e), vec!["a", "c"]);
    eliminar_columna("z", &mut e);
    assert_eq!(nombres(&e), vec!["a", "c"]);
    assert_eq!(fetch_rows(1, 1, &e).unwrap().to_string(), r#"[{"a":1,"c":3}]"#);
    let mut sin_tabla = ContenedorDatos { dataframe: None };
    eliminar_columna("b", &mut sin_tabla);
    assert!(sin_tabla.dataframe.is_none());
}

#[test]
fn renombrar_columnas() {
    let mut e = estado(b"a,b,c\n1,2,3\n");
    let r = transformar_columnas(
        &vec![("a", "x", ""), ("b", "x", ""), ("z", "w", ""), ("c", "c", ""), ("b", "a", "")],
        &mut e,
    );
    assert_eq!(r, Ok("No funcionó".to_string()));
    assert_eq!(nombres(&e), vec!["x", "a", "c"]);
    let r = transformar_columnas(&vec![("x", "y", ""), ("y", "x", "")], &mut e);
    assert!(r.is_ok());
    assert_eq!(nombres(&e), vec!["x", "a", "c"]);
    assert_eq!(fetch_rows(1, 1, &e).unwrap().to_string(), r#"[{"a":2,"c":3,"x":1}]"#);
}

#[test]
fn transformar_conserva_las_filas() {
    let (df, _) = construir_tabla(b"a,b\n1,2\n,\n").unwrap();
    let mut e = ContenedorDatos { dataframe: Some(df) };
    transformar_columnas(&vec![("b", "c", "")], &mut e).unwrap();
    assert_eq!(e.dataframe.as_ref().unwrap().height(), 2);
    assert_eq!(nombres(&e), vec!["a", "c"]);
}

#[test]
fn guardar_o_decir_por_que_no() {
    let (df, _) = construir_tabla(b"a\n1\n").unwrap();
    let (otra, _) = construir_tabla(b"b\n2\n").unwrap();
    let mut e = ContenedorDatos { dataframe: Some(df) };
    let r = guardar_renombrada(Err("nada".to_string()), otra.clone(), &mut e);
    assert_eq!(r, Err("Ocurrió un error al obtener el nuevo esquema nada".to_string()));
    assert_eq!(nombres(&e), vec!["a"]);
    let r = guardar_renombrada(Ok((vec![], DataFrame::empty(), vec![])), otra, &mut e);
    assert_eq!(r, Ok("No funcionó".to_string()));
    assert_eq!(nombres(&e), vec!["b"]);
}

#[test]
fn eliminar_todas_las_columnas() {
    let mut e = estado(b"a,b\n1,2\n3,4\n");
    eliminar_columna("a", &mut e);
    eliminar_columna("b", &mut e);
    eliminar_columna("b", &mut e);
    assert_eq!(nombres(&e).len(), 0);
    assert_eq!(e.dataframe.as_ref().unwrap().height(), 2);
    assert!(fetch_rows(1, 2, &e).is_ok());
    assert_eq!(
        transformar_columnas(&vec![("a", "b", "")], &mut e),
        Err(
            "Ocurrió un error al obtener el nuevo esquema La lista de columnas está vacía"
                .to_string()
        )
    );
}

#[test]
fn transformar_sin_tabla() {
    let mut e = ContenedorDatos { dataframe: None };
    assert_eq!(
        transformar_columnas(&vec![("a", "b", "")], &mut e),
        Err("No se pudo sacar el df del muteguard: Ocurrio un error".to_string())
    );
    let mut e = ContenedorDatos { dataframe: Some(DataFrame::empty()) };
    assert_eq!(
        transformar_columnas(&vec![], &mut e),
        Err(
            "Ocurrió un error al obtener el nuevo esquema La lista de columnas está vacía"
                .to_string()
        )
    );
}

#[test]
fn fallo_al_transformar_deja_la_tabla() {
    let mut e = estado(b"a,b\n1,2\n");
    let r = transformar_columnas(&vec![("a", "*", "")], &mut e);
    assert!(r
        .unwrap_err()
        .starts_with("Ocurrió un error al obtener el nuevo esquema Fracasó la búsqueda de nulos "));
    assert_eq!(nombres(&e), vec!["a", "b"]);
}
