use polars::prelude::{DataFrame, DataType, NamedFrom, PolarsError, Series};
use validador_csv::cadena::validar_cadena;
use validador_csv::esquema::{describir_columna, describir_filtrada, obtener_esquema_columnas};
use validador_csv::reporte::{
    aceptar_lectura, armar_reporte, comparar_filas, comparar_marcas, construir_tabla,
    exigir_esquema, exigir_filas, leer_csv, nombre_de_archivo, nombres_repetidos, varios_valores,
    ContenedorDatos, ReporteCsv,
};
use validador_csv::tabla::TipoDato;

fn leer(ruta: &str, contenido: &[u8]) -> Result<(ReporteCsv, ContenedorDatos), String> {
    leer_csv(ruta, &contenido[..contenido.len().min(4096)], contenido)
}

fn fallo(contenido: &[u8]) -> String {
    match leer("x.csv", contenido) {
        Ok(_) => panic!("se leyó"),
        Err(m) => m,
    }
}

#[test]
fn nombres_de_archivos() {
    assert_eq!(nombre_de_archivo("C:\\datos\\ventas.csv"), "ventas");
    assert_eq!(nombre_de_archivo("ventas.csv"), "ventas");
    assert_eq!(nombre_de_archivo("/tmp/ventas.csv"), "/tmp/ventas");
    assert_eq!(nombre_de_archivo("C:\\"), "");
    assert_eq!(nombre_de_archivo("a\\b.csv.csv.txt"), "b.txt");
}

#[test]
fn reporte_completo() {
    let (r, estado) =
        leer("C:\\d\\Mi Archivo.csv", b"Nombre,edad,peso\nAna,3,1.5\n,,\nLuis#,4,2\nLuis#,4,2\n")
            .unwrap();
    assert_eq!(r.nombre_archivo.cadena, "Mi Archivo");
    assert_eq!(r.nombre_archivo.sugerido, "mi_archivo");
    assert_eq!(r.encoding_aplicado, "UTF-8");
    assert_eq!(r.caracteres_corruptos.len(), 1);
    assert_eq!(r.caracteres_corruptos[0].caracter, "#");
    assert_eq!(r.caracteres_corruptos[0].filas, vec![4, 5]);
    assert_eq!(r.total_filas, 3);
    assert_eq!(r.null_rows, 1);
    assert_eq!(r.total_columnas, 3);
    assert!(r.sep_by_coma);
    assert!(r.hay_filas_repetidas);
    assert!(!r.nombres_columnas_repetidas);
    let columnas: Vec<(&str, &str, &str, bool)> = r
        .esquema_columnas
        .iter()
        .map(|c| (c.nombre.as_str(), c.nombre_sugerido.as_str(), c.tipo.as_str(), c.incidencia))
        .collect();
    assert_eq!(
        columnas,
        vec![
            ("Nombre", "nombre", "Texto", false),
            ("edad", "edad", "Numérica", true),
            ("peso", "peso", "Numérica", true),
        ]
    );
    assert_eq!(r.esquema_columnas[0].errores, vec!["Incluye mayúsculas"]);
    assert_eq!(estado.dataframe.unwrap().height(), 3);
}

#[test]
fn archivo_en_otra_codificacion() {
    let (r, _) = leer("x.csv", b"a\xf1o,regi\xf3n\n2020,Canc\xfan\n2021,Le\xf3n\n").unwrap();
    assert_eq!(r.encoding_aplicado, "windows-1252");
    assert_eq!(r.esquema_columnas[0].nombre, "año");
    assert_eq!(r.esquema_columnas[1].nombre, "región");
    assert!(r.caracteres_corruptos.is_empty());
}

#[test]
fn nombres_de_columnas_repetidos() {
    let (r, _) = leer("x.csv", b"a,a,b\n1,2,3\n").unwrap();
    assert!(r.nombres_columnas_repetidas);
    assert_eq!(r.esquema_columnas[1].nombre, "a_duplicated_0");
    assert!(nombres_repetidos(&vec!["z".to_string(), "x_duplicated_1".to_string()]));
    assert!(!nombres_repetidos(&vec!["x_duplicado_1".to_string()]));
}

#[test]
fn filas_repetidas_solo_si_no_lo_son_todas() {
    let hay = |contenido: &[u8]| leer("x.csv", contenido).unwrap().0.hay_filas_repetidas;
    assert!(hay(b"a,b\n1,2\n1,2\n3,4\n"));
    assert!(!hay(b"a,b\n1,2\n3,4\n"));
    assert!(!hay(b"a,b\n1,2\n1,2\n"));
    let (df, _) = construir_tabla(b"a\n0.0\n-0.0\n1.5\n").unwrap();
    assert_eq!(comparar_filas(&df), Ok(true));
}

#[test]
fn lineas_que_terminan_en_retorno() {
    let (r, _) = leer("x.csv", b"a,b\r1,2\r3,4\r").unwrap();
    assert_eq!(r.total_filas, 2);
    assert_eq!(r.total_columnas, 2);
    assert!(r.sep_by_coma);
}

#[test]
fn una_sola_columna() {
    let (r, _) = leer("x.csv", b"a;b\n1;2\n").unwrap();
    assert!(!r.sep_by_coma);
    assert_eq!(r.total_columnas, 1);
}

#[test]
fn archivos_sin_filas() {
    assert_eq!(fallo(b""), "No se pudo construir el DataFrame");
    assert_eq!(
        fallo(b"a,b\n"),
        "No se pudo leer correctamente el archivo. Verifica que no tenga columnas sin nombre ni encabezados"
    );
}

#[test]
fn todas_las_filas_vacias() {
    let (r, _) = leer("x.csv", b"a,b\n,\n,\n").unwrap();
    assert_eq!(r.total_filas, 0);
    assert_eq!(r.null_rows, 2);
    assert!(!r.hay_filas_repetidas);
}

#[test]
fn muchas_columnas() {
    let nombres: Vec<String> = (0..60).map(|i| format!("c{i}")).collect();
    let vacia = vec![""; 60].join(",");
    let llena = vec!["1"; 60].join(",");
    let texto = format!("{}\n{}\n{}\n{}\n", nombres.join(","), llena, vacia, llena);
    let (r, _) = leer("x.csv", texto.as_bytes()).unwrap();
    assert_eq!(r.total_columnas, 60);
    assert_eq!(r.total_filas, 2);
    assert_eq!(r.null_rows, 1);
    assert!(!r.hay_filas_repetidas);
}

#[test]
fn columna_cuyo_nombre_es_un_comodin() {
    assert!(fallo(b"*,b\n1,2\n").starts_with("fracasó la función Fracasó la búsqueda de nulos "));
}

#[test]
fn unica_columna_con_nombre_de_comodin() {
    let (r, _) = leer("x.csv", b"*\n1\n\n2\n").unwrap();
    assert_eq!(r.esquema_columnas[0].nombre, "*");
    assert_eq!(r.total_filas, 2);
    assert_eq!(r.null_rows, 1);
}

#[test]
fn columna_con_nombre_de_patron() {
    let (r, _) = leer("x.csv", b"^a$,a\n1,\n,\n,2\n").unwrap();
    assert_eq!(r.esquema_columnas[0].nombre, "^a$");
    assert_eq!(r.total_filas, 2);
    assert_eq!(r.null_rows, 1);
}

#[test]
fn archivo_con_marca_de_orden() {
    let (r, _) = leer("x.csv", "\u{feff}año,b\n1,2\n".as_bytes()).unwrap();
    assert_eq!(r.encoding_aplicado, "UTF-8");
    assert_eq!(r.esquema_columnas[0].nombre, "año");
    assert!(r.caracteres_corruptos.is_empty());
}

#[test]
fn tabla_con_filas() {
    let (df, coma) = construir_tabla(b"a,b\n1,2\n").unwrap();
    assert!(coma);
    assert_eq!(exigir_filas(df).unwrap().height(), 1);
    let vacia = DataFrame::empty();
    assert!(exigir_filas(vacia).is_err());
}

fn error_de_polars() -> PolarsError {
    PolarsError::NoData("nada".into())
}

#[test]
fn lecturas_fallidas() {
    assert_eq!(
        aceptar_lectura(Err(error_de_polars())).unwrap_err(),
        "No se pudo construir el DataFrame"
    );
}

#[test]
fn esquema_de_una_tabla_filtrada() {
    let (df, _) = construir_tabla(b"a,Mi B,c\n1,x,true\n,,\n").unwrap();
    let (esquema, q, nombres) = describir_filtrada(Ok(df)).unwrap();
    assert_eq!(nombres, vec!["a", "Mi B", "c"]);
    assert_eq!(q.height(), 2);
    let tipos: Vec<&str> = esquema.iter().map(|c| c.tipo.as_str()).collect();
    assert_eq!(tipos, vec!["Numérica", "Texto", "Texto"]);
    assert_eq!(esquema[1].nombre_sugerido, "mi_b");
    let fallo = match describir_filtrada(Err(error_de_polars())) {
        Ok(_) => panic!("hay esquema"),
        Err(m) => m,
    };
    assert!(fallo.starts_with("Fracasó la búsqueda de nulos "));
}

#[test]
fn depurar_otra_vez() {
    let (df, _) = construir_tabla(b"a,b\n1,x\n,\n2,\n").unwrap();
    let (e1, una, n1) = obtener_esquema_columnas(&df).unwrap();
    let (e2, otra, n2) = obtener_esquema_columnas(&una).unwrap();
    assert_eq!(una.height(), 2);
    assert_eq!(una.dtypes(), df.dtypes());
    assert!(una.equals_missing(&otra));
    assert_eq!(n1, n2);
    assert_eq!(format!("{:?}", e1), format!("{:?}", e2));
}

#[test]
fn columna_de_fechas() {
    let dias = Series::new("dia".into(), vec![Some(0i32), None]);
    let fechas = dias.cast(&DataType::Date).unwrap();
    let df = DataFrame::new(vec![fechas.into()]).unwrap();
    let (esquema, q, _) = obtener_esquema_columnas(&df).unwrap();
    assert_eq!(esquema[0].tipo, "Temporal");
    assert_eq!(q.height(), 1);
}

#[test]
fn marcas_de_filas() {
    let comparar = |v: Vec<bool>| comparar_marcas(Ok(Series::new("".into(), v)));
    assert_eq!(comparar(vec![true, false, true]), Ok(true));
    assert_eq!(comparar(vec![true, true]), Ok(false));
    assert_eq!(comparar(vec![false]), Ok(false));
    assert_eq!(comparar(vec![]), Ok(false));
    let mensaje = "No se pudo comparar las filas.".to_string();
    let con_ese_nombre = Series::new("valores".into(), vec![true, false]);
    assert_eq!(comparar_marcas(Ok(con_ese_nombre)), Err(mensaje.clone()));
    assert_eq!(comparar_marcas(Err(error_de_polars())), Err(mensaje.clone()));
    assert_eq!(varios_valores(Err(error_de_polars())), Err(mensaje.clone()));
    let (df, _) = construir_tabla(b"a\n1\n2\n").unwrap();
    assert_eq!(varios_valores(Ok(df)), Ok(true));
    assert_eq!(comparar_filas(&DataFrame::empty()), Err(mensaje));
}

#[test]
fn esquema_exigido() {
    let fallo = match exigir_esquema(Err("nada".to_string())) {
        Ok(_) => panic!("hay esquema"),
        Err(m) => m,
    };
    assert_eq!(fallo, "fracasó la función nada");
    assert_eq!(exigir_esquema(Ok((vec![], DataFrame::empty(), vec!["a".to_string()]))).unwrap().2, vec!["a"]);
}

#[test]
fn reporte_armado() {
    let armar = |comparadas: Result<bool, String>| {
        let (df, _) = construir_tabla(b"a,a\n1,2\n3,4\n").unwrap();
        let (esquema, q, nombres) = obtener_esquema_columnas(&df).unwrap();
        armar_reporte(
            5,
            esquema,
            q,
            nombres,
            comparadas,
            validar_cadena("x"),
            "UTF-8".to_string(),
            vec![],
            true,
        )
    };
    let (reporte, q) = armar(Ok(true)).unwrap();
    assert_eq!(reporte.total_filas, 2);
    assert_eq!(reporte.null_rows, 3);
    assert_eq!(reporte.total_columnas, 2);
    assert_eq!(reporte.esquema_columnas.len(), 2);
    assert!(reporte.nombres_columnas_repetidas);
    assert!(reporte.hay_filas_repetidas);
    assert!(reporte.sep_by_coma);
    assert_eq!(q.height(), 2);
    assert!(!armar(Ok(false)).unwrap().0.hay_filas_repetidas);
    let fallo = match armar(Err("nada".to_string())) {
        Ok(_) => panic!("hay reporte"),
        Err(m) => m,
    };
    assert_eq!(fallo, "nada");
}

#[test]
fn tabla_sin_columnas() {
    let vacia = DataFrame::empty();
    match obtener_esquema_columnas(&vacia) {
        Ok(_) => panic!("hay esquema"),
        Err(m) => assert_eq!(m, "La lista de columnas está vacía"),
    }
}

#[test]
fn descripciones_de_columnas() {
    let c = describir_columna("Fecha Alta", TipoDato::Fecha);
    assert_eq!(c.nombre_sugerido, "fecha_alta");
    assert_eq!(c.tipo, "Temporal");
    assert_eq!(c.errores, vec!["Incluye mayúsculas", "Incluye espacios"]);
    assert_eq!(describir_columna("x", TipoDato::Flotante).tipo, "Numérica");
    assert_eq!(describir_columna("x", TipoDato::Entero).tipo, "Numérica");
    assert_eq!(describir_columna("x", TipoDato::Otro).tipo, "Texto");
}
