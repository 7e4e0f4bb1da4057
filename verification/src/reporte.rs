//! Reading a CSV file and reporting what is found in it.
use crate::cadena::{validar_cadena, ValidacionCadena};
use crate::caracteres::{caracteres_corruptos, lista_de_corruptos, CaracterCorrupto};
use crate::codificacion::{
    codificacion_de, con_marca_inicial, decodificar, detectar_codificacion, muestra,
    sin_marca_inicial, texto_decodificado, texto_en, tomar_muestra,
};
use crate::esquema::{
    depurar_no_agrega, esquema_de, nombres_simples, obtener_esquema_columnas, sin_filas_vacias,
    EsquemaColumna,
};
use crate::tabla::{
    altura, ancho, booleanos, contar_valores, filas_repetidas, leer_tabla, leida, nombre_serie,
    repetida, tabla, tabla_csv, Fila, Tabla, MAX_FILAS,
};
use crate::texto::{contiene, contiene_patron, partes, partir, quitar, sin_patron, vistas};
use polars::prelude::{DataFrame, PolarsError, Series};
use vstd::prelude::*;
use vstd::utf8::{decode_utf8, valid_utf8};

verus! {

/// What is found in a CSV file.
pub struct ReporteCsv {
    pub nombre_archivo: ValidacionCadena,
    pub encoding_aplicado: String,
    pub caracteres_corruptos: Vec<CaracterCorrupto>,
    /// How many rows had a value.
    pub total_filas: usize,
    pub total_columnas: usize,
    pub esquema_columnas: Vec<EsquemaColumna>,
    /// Whether two columns had the same name.
    pub nombres_columnas_repetidas: bool,
    /// Whether some rows are equal to another one and some are not. It is false too where every row
    /// is equal to another one.
    pub hay_filas_repetidas: bool,
    /// Whether commas separate the columns.
    pub sep_by_coma: bool,
    /// How many rows had no value.
    pub null_rows: usize,
}

/// The table that the application works on, once one has been read.
pub struct ContenedorDatos {
    pub dataframe: Option<DataFrame>,
}

impl ContenedorDatos {
    /// Whether the table, if there is one, is well formed.
    pub open spec fn bien_formado(self) -> bool {
        self.dataframe matches Some(df) ==> tabla(df).bien_formada()
    }

    /// Whether the table, if there is one, is well formed and of the types of a CSV file.
    pub open spec fn valido(self) -> bool {
        self.dataframe matches Some(df) ==> tabla(df).bien_formada() && tabla(df).tipos_de_csv()
    }
}

/// The byte of a comma.
pub const COMA: u8 = 0x2c;

/// The byte of a line feed.
pub const SALTO: u8 = 0x0a;

/// The byte of a carriage return.
pub const RETORNO: u8 = 0x0d;

/// The name of the file at `ruta`: what follows the last backslash, without `.csv`.
pub open spec fn nombre_en(ruta: Seq<char>) -> Seq<char> {
    sin_patron(partes(ruta, '\\').last(), ".csv"@)
}

/// The name of the file at `ruta`.
pub fn nombre_de_archivo(ruta: &str) -> (r: String)
    ensures
        r@ == nombre_en(ruta@),
{
    let directorio = partir(ruta, '\\');
    proof {
        crate::texto::unir_deshace_partir(ruta@, '\\');
        assert(vistas(directorio@).len() == directorio@.len());
        assert(vistas(directorio@).last() == directorio@.last()@);
    }
    quitar(directorio[directorio.len() - 1].as_str(), ".csv")
}

/// Whether `lectura` is what may be read from a CSV file, `None` standing for a failure.
pub open spec fn es_lectura(
    contenido: Seq<u8>,
    separador: u8,
    fin_linea: u8,
    lectura: Option<Tabla>,
) -> bool {
    exists|corte: nat| #[trigger] tabla_csv(contenido, separador, fin_linea, corte) == lectura
}

/// The table to go by, given what is read where lines end in a line feed (`primera`) and where
/// they end in a carriage return (`segunda`). The second counts only if the first has no rows.
pub open spec fn tabla_elegida(primera: Option<Tabla>, segunda: Option<Tabla>) -> Result<
    Tabla,
    Seq<char>,
> {
    match primera {
        None => Err("No se pudo construir el DataFrame"@),
        Some(t) => if t.filas.len() > 0 {
            Ok(t)
        } else {
            match segunda {
                None => Err("No se pudo construir el DataFrame"@),
                Some(u) => if u.filas.len() > 0 {
                    Ok(u)
                } else {
                    Err(
                        "No se pudo leer correctamente el archivo. Verifica que no tenga columnas sin nombre ni encabezados"@,
                    )
                },
            }
        },
    }
}

/// Takes a table that was read, or says that none was.
pub fn aceptar_lectura(lectura: Result<DataFrame, PolarsError>) -> (r: Result<DataFrame, String>)
    ensures
        match (lectura, r) {
            (Ok(df), Ok(q)) => q == df,
            (Err(_), Err(m)) => m@ == "No se pudo construir el DataFrame"@,
            _ => false,
        },
{
    match lectura {
        Ok(df) => Ok(df),
        Err(_) => Err("No se pudo construir el DataFrame".to_owned()),
    }
}

/// Takes a table that has rows, or says that the file was not read well.
pub fn exigir_filas(df: DataFrame) -> (r: Result<DataFrame, String>)
    ensures
        match r {
            Ok(q) => q == df && tabla(df).filas.len() > 0,
            Err(m) => tabla(df).filas.len() == 0 && m@
                == "No se pudo leer correctamente el archivo. Verifica que no tenga columnas sin nombre ni encabezados"@,
        },
{
    if altura(&df) == 0 {
        Err(
            "No se pudo leer correctamente el archivo. Verifica que no tenga columnas sin nombre ni encabezados".to_owned(),
        )
    } else {
        Ok(df)
    }
}

/// Whether `r` is the table to go by, with whether commas separate its columns, given what is read
/// (see [`tabla_elegida`]).
pub open spec fn construida(
    r: Result<(DataFrame, bool), String>,
    primera: Option<Tabla>,
    segunda: Option<Tabla>,
) -> bool {
    match (r, tabla_elegida(primera, segunda)) {
        (Ok((df, coma)), Ok(t)) => {
            &&& tabla(df) == t
            &&& tabla(df).tipos_de_csv()
            &&& tabla(df).nombres_distintos()
            &&& coma == (primera->0.nombres.len() > 1)
        },
        (Err(m), Err(e)) => m@ == e,
        _ => false,
    }
}

/// Reads the table in a CSV file. Lines are taken to end in a line feed; if no rows come out, they
/// are taken to end in a carriage return.
pub fn construir_tabla(contenido: &[u8]) -> (r: Result<(DataFrame, bool), String>)
    ensures
        exists|primera: Option<Tabla>, segunda: Option<Tabla>|
            {
                &&& #[trigger] es_lectura(contenido@, COMA, SALTO, primera)
                &&& #[trigger] es_lectura(contenido@, COMA, RETORNO, segunda)
                &&& construida(r, primera, segunda)
            },
{
    let ghost segunda = tabla_csv(contenido@, COMA, RETORNO, 0);
    assert(es_lectura(contenido@, COMA, RETORNO, segunda));
    let lectura = leer_tabla(contenido, COMA, SALTO);
    let ghost primera = leida(lectura);
    assert(es_lectura(contenido@, COMA, SALTO, primera));
    let df = match aceptar_lectura(lectura) {
        Ok(df) => df,
        Err(m) => {
            let r = Err(m);
            assert(construida(r, primera, segunda));
            return r;
        },
    };
    let coma = ancho(&df) > 1;
    if altura(&df) > 0 {
        let r = Ok((df, coma));
        assert(construida(r, primera, segunda));
        return r;
    }
    let otra = leer_tabla(contenido, COMA, RETORNO);
    let ghost segunda = leida(otra);
    assert(es_lectura(contenido@, COMA, RETORNO, segunda));
    let r = match aceptar_lectura(otra) {
        Ok(df) => match exigir_filas(df) {
            Ok(df) => Ok((df, coma)),
            Err(m) => Err(m),
        },
        Err(m) => Err(m),
    };
    assert(construida(r, primera, segunda));
    r
}

/// Whether some of the rows are equal to another one and some are not.
pub open spec fn repeticion_parcial(filas: Seq<Fila>) -> bool {
    &&& exists|i: int| 0 <= i < filas.len() && #[trigger] repetida(filas, i)
    &&& exists|i: int| 0 <= i < filas.len() && !#[trigger] repetida(filas, i)
}

/// Whether a name of `nombres` is one that was made up for the second column with a name.
pub open spec fn hay_nombre_repetido(nombres: Seq<Seq<char>>) -> bool {
    exists|k: int| 0 <= k < nombres.len() && contiene_patron(#[trigger] nombres[k], "_duplicated_"@)
}

impl ReporteCsv {
    /// Whether this says of the table `t`, of which the rows that are not empty are kept, what there
    /// is to say.
    pub open spec fn resume(self, t: Tabla) -> bool {
        &&& self.total_filas == sin_filas_vacias(t).filas.len()
        &&& self.null_rows == t.filas.len() - sin_filas_vacias(t).filas.len()
        &&& self.total_columnas == t.nombres.len()
        &&& esquema_de(self.esquema_columnas@, t)
        &&& self.nombres_columnas_repetidas == hay_nombre_repetido(t.nombres)
        &&& self.hay_filas_repetidas == repeticion_parcial(sin_filas_vacias(t).filas)
    }
}

/// Whether two rows, at different places, are equal.
pub open spec fn hay_dos_iguales(filas: Seq<Fila>) -> bool {
    exists|i: int, j: int|
        #![trigger filas[i], filas[j]]
        0 <= i < j < filas.len() && filas[i] == filas[j]
}

/// Whether some row is different from all the others.
pub open spec fn hay_una_sola(filas: Seq<Fila>) -> bool {
    exists|k: int|
        0 <= k < filas.len() && (forall|l: int|
            0 <= l < filas.len() && l != k ==> #[trigger] filas[l] != #[trigger] filas[k])
}

/// The flag on repeated rows is set exactly when two rows of the table are equal, wherever they are,
/// and some row of it is different from all the others.
pub proof fn repeticion_en_las_filas(filas: Seq<Fila>)
    ensures
        repeticion_parcial(filas) <==> {
            &&& exists|i: int, j: int|
                #![trigger filas[i], filas[j]]
                0 <= i < j < filas.len() && filas[i] == filas[j]
            &&& exists|k: int|
                0 <= k < filas.len() && (forall|l: int|
                    0 <= l < filas.len() && l != k ==> #[trigger] filas[l] != #[trigger] filas[k])
        },
        repeticion_parcial(filas) == (hay_dos_iguales(filas) && hay_una_sola(filas)),
{
    if exists|i: int| 0 <= i < filas.len() && #[trigger] repetida(filas, i) {
        let i = choose|i: int| 0 <= i < filas.len() && #[trigger] repetida(filas, i);
        let j = choose|j: int| 0 <= j < filas.len() && j != i && #[trigger] filas[j] == filas[i];
        if i < j {
            assert(filas[i] == filas[j]);
        } else {
            assert(filas[j] == filas[i]);
        }
        assert(hay_dos_iguales(filas));
    }
    if hay_dos_iguales(filas) {
        let (i, j) = choose|i: int, j: int|
            #![trigger filas[i], filas[j]]
            0 <= i < j < filas.len() && filas[i] == filas[j];
        assert(repetida(filas, i));
    }
    if exists|i: int| 0 <= i < filas.len() && !#[trigger] repetida(filas, i) {
        let i = choose|i: int| 0 <= i < filas.len() && !#[trigger] repetida(filas, i);
        assert forall|l: int| 0 <= l < filas.len() && l != i implies #[trigger] filas[l]
            != filas[i] by {}
        assert(hay_una_sola(filas));
    }
    if hay_una_sola(filas) {
        let k = choose|k: int|
            0 <= k < filas.len() && (forall|l: int|
                0 <= l < filas.len() && l != k ==> #[trigger] filas[l] != #[trigger] filas[k]);
        if repetida(filas, k) {
            let j = choose|j: int|
                0 <= j < filas.len() && j != k && #[trigger] filas[j] == filas[k];
            assert(filas[j] != filas[k]);
        }
        assert(!repetida(filas, k));
    }
}

proof fn lema_valores_distintos(v: Seq<bool>)
    ensures
        v.to_set().len() > 1 <==> v.contains(true) && v.contains(false),
{
    broadcast use vstd::set_lib::group_set_properties;

    let s = v.to_set();
    vstd::seq_lib::seq_to_set_is_finite(v);
    assert(s.contains(true) == v.contains(true));
    assert(s.contains(false) == v.contains(false));
    if v.contains(true) && v.contains(false) {
        assert(s =~= set![true, false]);
        assert(set![true, false].len() == 2);
    } else if v.contains(true) {
        assert(s =~= set![true]);
    } else if v.contains(false) {
        assert(s =~= set![false]);
    } else {
        assert(s =~= Set::empty());
    }
}

/// Tells whether there is more than one row in a table of counts, or says that the rows that were
/// counted could not be compared.
pub fn varios_valores(cuentas: Result<DataFrame, PolarsError>) -> (r: Result<bool, String>)
    ensures
        match (cuentas, r) {
            (Ok(q), Ok(b)) => b == (tabla(q).filas.len() > 1),
            (Err(_), Err(m)) => m@ == "No se pudo comparar las filas."@,
            _ => false,
        },
{
    match cuentas {
        Ok(q) => Ok(altura(&q) > 1),
        Err(_) => Err("No se pudo comparar las filas.".to_owned()),
    }
}

/// Tells whether some of the marks are set and some are not, or says that the rows that they are of
/// could not be compared.
pub fn comparar_marcas(marcas: Result<Series, PolarsError>) -> (r: Result<bool, String>)
    requires
        marcas matches Ok(s) ==> booleanos(s) is Some && booleanos(s)->0.len() <= MAX_FILAS,
    ensures
        match (marcas, r) {
            (Ok(s), Ok(b)) => {
                &&& nombre_serie(s) != "valores"@
                &&& b == (booleanos(s)->0.contains(true) && booleanos(s)->0.contains(false))
            },
            (Ok(s), Err(m)) => {
                &&& nombre_serie(s) == "valores"@
                &&& m@ == "No se pudo comparar las filas."@
            },
            (Err(_), Err(m)) => m@ == "No se pudo comparar las filas."@,
            (Err(_), Ok(_)) => false,
        },
{
    match marcas {
        Ok(s) => {
            proof {
                lema_valores_distintos(booleanos(s)->0);
            }
            varios_valores(contar_valores(&s, "valores"))
        },
        Err(_) => Err("No se pudo comparar las filas.".to_owned()),
    }
}

/// Tells whether some of the rows of `df` are equal to another one and some are not, or says that
/// the rows could not be compared, as of a table without columns. Those of a table with columns of
/// the types of a CSV file always can.
pub fn comparar_filas(df: &DataFrame) -> (r: Result<bool, String>)
    requires
        tabla(*df).bien_formada(),
    ensures
        match r {
            Ok(b) => {
                &&& tabla(*df).nombres.len() > 0
                &&& b == repeticion_parcial(tabla(*df).filas)
                &&& b == (hay_dos_iguales(tabla(*df).filas) && hay_una_sola(tabla(*df).filas))
            },
            Err(m) => {
                &&& !(tabla(*df).nombres.len() > 0 && tabla(*df).tipos_de_csv())
                &&& m@ == "No se pudo comparar las filas."@
            },
        },
{
    proof {
        repeticion_en_las_filas(tabla(*df).filas);
        reveal_strlit("");
        reveal_strlit("valores");
        assert(""@.len() != "valores"@.len());
        let filas = tabla(*df).filas;
        let v = Seq::new(filas.len(), |i: int| repetida(filas, i));
        if v.contains(true) {
            let i = choose|i: int| 0 <= i < v.len() && v[i] == true;
            assert(repetida(filas, i));
        }
        if v.contains(false) {
            let i = choose|i: int| 0 <= i < v.len() && v[i] == false;
            assert(!repetida(filas, i));
        }
        if repeticion_parcial(filas) {
            let i = choose|i: int| 0 <= i < filas.len() && #[trigger] repetida(filas, i);
            assert(v[i]);
            let j = choose|j: int| 0 <= j < filas.len() && !#[trigger] repetida(filas, j);
            assert(!v[j]);
        }
    }
    comparar_marcas(filas_repetidas(df))
}

/// Tells whether a name of `nombres` is one that was made up for the second column with a name.
pub fn nombres_repetidos(nombres: &Vec<String>) -> (r: bool)
    ensures
        r == hay_nombre_repetido(vistas(nombres@)),
{
    for i in 0..nombres.len()
        invariant
            forall|k: int|
                0 <= k < i ==> !contiene_patron(#[trigger] vistas(nombres@)[k], "_duplicated_"@),
    {
        assert(vistas(nombres@)[i as int] == nombres@[i as int]@);
        if contiene(nombres[i].as_str(), "_duplicated_") {
            return true;
        }
    }
    false
}

/// Whether `m` says why the table `t` could not be reported on: it has no columns, or a name that
/// does not mean its column in an expression, or a column of a type that no CSV file has.
pub open spec fn es_fallo(m: Seq<char>, t: Tabla) -> bool {
    if t.nombres.len() == 0 {
        m == "fracasó la función "@ + "La lista de columnas está vacía"@
    } else {
        if nombres_simples(t.nombres) {
            !t.tipos_de_csv() && m == "No se pudo comparar las filas."@
        } else {
            ("fracasó la función "@ + "Fracasó la búsqueda de nulos "@).is_prefix_of(m)
        }
    }
}

/// Takes a schema that was built, or passes on why none was.
pub fn exigir_esquema(
    obtenido: Result<(Vec<EsquemaColumna>, DataFrame, Vec<String>), String>,
) -> (r: Result<(Vec<EsquemaColumna>, DataFrame, Vec<String>), String>)
    ensures
        match (obtenido, r) {
            (Ok(a), Ok(b)) => a == b,
            (Err(e), Err(m)) => m@ == "fracasó la función "@ + e@,
            _ => false,
        },
{
    match obtenido {
        Ok(a) => Ok(a),
        Err(e) => {
            let inicio = "fracasó la función ".to_owned();
            Err(inicio.concat(e.as_str()))
        },
    }
}

/// Puts a report together, given how many rows were read, what is kept of them and its schema, and
/// what came of comparing its rows.
pub fn armar_reporte(
    filas_leidas: usize,
    esquema_columnas: Vec<EsquemaColumna>,
    q: DataFrame,
    nombres: Vec<String>,
    comparadas: Result<bool, String>,
    nombre_archivo: ValidacionCadena,
    encoding_aplicado: String,
    caracteres_corruptos: Vec<CaracterCorrupto>,
    sep_by_coma: bool,
) -> (r: Result<(ReporteCsv, DataFrame), String>)
    requires
        tabla(q).filas.len() <= filas_leidas,
    ensures
        match (comparadas, r) {
            (Ok(b), Ok((reporte, p))) => {
                &&& p == q
                &&& reporte.nombre_archivo == nombre_archivo
                &&& reporte.encoding_aplicado == encoding_aplicado
                &&& reporte.caracteres_corruptos == caracteres_corruptos
                &&& reporte.total_filas == tabla(q).filas.len()
                &&& reporte.total_columnas == nombres@.len()
                &&& reporte.esquema_columnas == esquema_columnas
                &&& reporte.nombres_columnas_repetidas == hay_nombre_repetido(vistas(nombres@))
                &&& reporte.hay_filas_repetidas == b
                &&& reporte.sep_by_coma == sep_by_coma
                &&& reporte.null_rows == filas_leidas - tabla(q).filas.len()
            },
            (Err(e), Err(m)) => m == e,
            _ => false,
        },
{
    let total_filas = altura(&q);
    let null_rows = filas_leidas - total_filas;
    let hay_filas_repetidas = match comparadas {
        Ok(b) => b,
        Err(m) => return Err(m),
    };
    let nombres_columnas_repetidas = nombres_repetidos(&nombres);
    let total_columnas = nombres.len();
    let reporte = ReporteCsv {
        nombre_archivo,
        encoding_aplicado,
        caracteres_corruptos,
        total_filas,
        total_columnas,
        esquema_columnas,
        nombres_columnas_repetidas,
        hay_filas_repetidas,
        sep_by_coma,
        null_rows,
    };
    Ok((reporte, q))
}

/// Reports on the table `df`, read from a file of which the rest is known. Returns the report with
/// the table without its empty rows. It succeeds on every table that has columns, all of the types
/// of a CSV file and with names that mean them in an expression.
pub fn reportar_tabla(
    df: &DataFrame,
    nombre_archivo: ValidacionCadena,
    encoding_aplicado: String,
    caracteres_corruptos: Vec<CaracterCorrupto>,
    sep_by_coma: bool,
) -> (r: Result<(ReporteCsv, DataFrame), String>)
    requires
        tabla(*df).bien_formada(),
    ensures
        match r {
            Ok((reporte, q)) => {
                &&& reporte.nombre_archivo == nombre_archivo
                &&& reporte.encoding_aplicado == encoding_aplicado
                &&& reporte.caracteres_corruptos == caracteres_corruptos
                &&& reporte.sep_by_coma == sep_by_coma
                &&& reporte.resume(tabla(*df))
                &&& tabla(q) == sin_filas_vacias(tabla(*df))
                &&& tabla(*df).nombres.len() > 0
                &&& nombres_simples(tabla(*df).nombres)
            },
            Err(m) => {
                &&& !(tabla(*df).nombres.len() > 0 && nombres_simples(tabla(*df).nombres) && tabla(
                    *df,
                ).tipos_de_csv())
                &&& es_fallo(m@, tabla(*df))
            },
        },
{
    let obtenido = obtener_esquema_columnas(df);
    proof {
        if obtenido is Err {
            let a = "fracasó la función "@;
            let b = "Fracasó la búsqueda de nulos "@;
            let e = obtenido->Err_0@;
            if b.is_prefix_of(e) {
                assert((a + b) =~= (a + e).take((a + b).len() as int));
            }
        }
    }
    let (esquema, q, nombres) = match exigir_esquema(obtenido) {
        Ok(partes_del_esquema) => partes_del_esquema,
        Err(m) => return Err(m),
    };
    proof {
        depurar_no_agrega(tabla(*df));
        assert(vistas(nombres@).len() == nombres@.len());
    }
    let comparadas = comparar_filas(&q);
    armar_reporte(
        altura(df),
        esquema,
        q,
        nombres,
        comparadas,
        nombre_archivo,
        encoding_aplicado,
        caracteres_corruptos,
        sep_by_coma,
    )
}

/// The text of a file, given the bytes that were read from its start and all of its bytes.
pub open spec fn texto_de(leidos: Seq<u8>, contenido: Seq<u8>) -> Seq<char> {
    texto_en(codificacion_de(muestra(leidos)), contenido)
}

/// The text of a file, in UTF-8 (see [`texto_de`]).
pub open spec fn texto_en_utf_8(leidos: Seq<u8>, contenido: Seq<u8>) -> Seq<u8> {
    vstd::utf8::encode_utf8(texto_de(leidos, contenido))
}

/// Whether `r` is what reading a file comes to, given its path, the bytes that were read from its
/// start, all of its bytes, and the tables that its text was read as (see [`tabla_elegida`]).
pub open spec fn leido(
    r: Result<(ReporteCsv, ContenedorDatos), String>,
    ruta: Seq<char>,
    leidos: Seq<u8>,
    contenido: Seq<u8>,
    primera: Option<Tabla>,
    segunda: Option<Tabla>,
) -> bool {
    match (r, tabla_elegida(primera, segunda)) {
        (Ok((reporte, estado)), Ok(t)) => {
            &&& t.cabe()
            &&& estado.valido()
            &&& reporte.nombre_archivo.validada(nombre_en(ruta))
            &&& reporte.encoding_aplicado@ == codificacion_de(muestra(leidos))
            &&& lista_de_corruptos(reporte.caracteres_corruptos@, texto_de(leidos, contenido))
            &&& reporte.sep_by_coma == (primera->0.nombres.len() > 1)
            &&& t.nombres.len() > 0
            &&& nombres_simples(t.nombres)
            &&& estado.dataframe matches Some(q)
            &&& tabla(q) == sin_filas_vacias(t)
            &&& reporte.resume(t)
        },
        (Err(m), Ok(t)) => if t.cabe() {
            &&& t.tipos_de_csv()
            &&& !(t.nombres.len() > 0 && nombres_simples(t.nombres))
            &&& es_fallo(m@, t)
        } else {
            m@ == "El archivo tiene demasiadas filas"@
        },
        (Err(m), Err(e)) => m@ == e,
        (Ok(_), Err(_)) => false,
    }
}

/// Reads a CSV file, given its path, the bytes that a first look at its start gave, and all of its
/// bytes. Returns a report on it, and the table to work on from there: the one in the file without
/// its empty rows. A file with more rows than a table can have is refused.
pub fn leer_csv(ruta_front: &str, leidos: &[u8], contenido: &[u8]) -> (r: Result<
    (ReporteCsv, ContenedorDatos),
    String,
>)
    ensures
        exists|primera: Option<Tabla>, segunda: Option<Tabla>|
            {
                &&& #[trigger] es_lectura(
                    texto_en_utf_8(leidos@, contenido@),
                    COMA,
                    SALTO,
                    primera,
                )
                &&& #[trigger] es_lectura(
                    texto_en_utf_8(leidos@, contenido@),
                    COMA,
                    RETORNO,
                    segunda,
                )
                &&& leido(r, ruta_front@, leidos@, contenido@, primera, segunda)
            },
        texto_de(leidos@, contenido@) == texto_decodificado(
            codificacion_de(muestra(leidos@)),
            contenido@,
        ),
        r matches Ok((reporte, _)) ==> lista_de_corruptos(
            reporte.caracteres_corruptos@,
            texto_decodificado(reporte.encoding_aplicado@, contenido@),
        ),
{
    let nombre = nombre_de_archivo(ruta_front);
    let nombre_archivo = validar_cadena(nombre.as_str());
    let partial_bytes = tomar_muestra(leidos);
    let codificacion = detectar_codificacion(partial_bytes.as_slice());
    let encoding_aplicado = crate::codificacion::nombre_de(codificacion);
    let texto = decodificar(codificacion, contenido);
    let corruptos = caracteres_corruptos(texto.as_str());
    let contenido_final = texto.as_str().as_bytes();
    assert(contenido_final@ == texto_en_utf_8(leidos@, contenido@));
    let construido = construir_tabla(contenido_final);
    let ghost (primera, segunda) = choose|primera: Option<Tabla>, segunda: Option<Tabla>|
        {
            &&& #[trigger] es_lectura(contenido_final@, COMA, SALTO, primera)
            &&& #[trigger] es_lectura(contenido_final@, COMA, RETORNO, segunda)
            &&& construida(construido, primera, segunda)
        };
    let (df, sep_by_coma) = match construido {
        Ok(par) => par,
        Err(m) => {
            let r = Err(m);
            assert(leido(r, ruta_front@, leidos@, contenido@, primera, segunda));
            return r;
        },
    };
    if altura(&df) > MAX_FILAS {
        let r = Err("El archivo tiene demasiadas filas".to_owned());
        assert(leido(r, ruta_front@, leidos@, contenido@, primera, segunda));
        return r;
    }
    let r = match reportar_tabla(
        &df,
        nombre_archivo,
        encoding_aplicado,
        corruptos,
        sep_by_coma,
    ) {
        Ok((reporte, q)) => {
            proof {
                depurar_no_agrega(tabla(df));
            }
            Ok((reporte, ContenedorDatos { dataframe: Some(q) }))
        },
        Err(m) => Err(m),
    };
    assert(leido(r, ruta_front@, leidos@, contenido@, primera, segunda));
    r
}

/// The rows that a report counts as kept and those that it counts as empty are together the rows of
/// the table that was read. The schema has an entry for each column, with its name.
pub proof fn filas_cuadran(reporte: ReporteCsv, t: Tabla)
    requires
        reporte.resume(t),
    ensures
        reporte.total_filas + reporte.null_rows == t.filas.len(),
        reporte.total_columnas == reporte.esquema_columnas@.len(),
        forall|k: int|
            0 <= k < reporte.total_columnas ==> (
            #[trigger] reporte.esquema_columnas@[k]).nombre@ == t.nombres[k],
{
}

/// A file that is well formed in UTF-8, and of which the same holds of its start, is read in UTF-8.
/// Its text is the one that it holds, but for a byte order mark at its start.
pub proof fn utf_8_se_conserva(leidos: Seq<u8>, contenido: Seq<u8>)
    requires
        valid_utf8(muestra(leidos)),
        valid_utf8(contenido),
    ensures
        codificacion_de(muestra(leidos)) == "UTF-8"@,
        texto_de(leidos, contenido) == sin_marca_inicial(decode_utf8(contenido)),
        !con_marca_inicial(decode_utf8(contenido)) ==> texto_en_utf_8(leidos, contenido)
            == contenido,
{
    vstd::utf8::decode_utf8_encode_utf8(contenido);
}

/// The name of a file is what follows the last backslash of its path, or the whole path if it has
/// none, without `.csv`.
pub proof fn nombre_tras_la_barra(carpeta: Seq<char>, archivo: Seq<char>)
    requires
        !archivo.contains('\\'),
    ensures
        nombre_en(archivo) == sin_patron(archivo, ".csv"@),
        nombre_en(carpeta.push('\\') + archivo) == sin_patron(archivo, ".csv"@),
{
    let v = partes(carpeta, '\\');
    crate::texto::unir_deshace_partir(carpeta, '\\');
    crate::texto::partes_sin_separador(carpeta, '\\');
    let w = v.push(archivo);
    assert(w.drop_last() =~= v);
    assert forall|k: int| 0 <= k < w.len() implies !(#[trigger] w[k]).contains('\\') by {
        if k < v.len() {
            assert(!v[k].contains('\\'));
        }
    }
    crate::texto::partir_deshace_unir(w, '\\');
    crate::texto::partir_deshace_unir(seq![archivo], '\\');
    assert(seq![archivo].last() == archivo);
}

/// A path whose last part is a name followed by `.csv` gives that name, where `.csv` does not occur
/// before the end.
pub proof fn nombre_sin_extension(carpeta: Seq<char>, nombre: Seq<char>)
    requires
        !nombre.contains('\\'),
        forall|j: int|
            0 <= j < nombre.len() ==> #[trigger] (nombre + ".csv"@).subrange(j, j + 4) != ".csv"@,
    ensures
        nombre_en(nombre + ".csv"@) == nombre,
        nombre_en(carpeta.push('\\') + (nombre + ".csv"@)) == nombre,
{
    reveal_strlit(".csv");
    let archivo = nombre + ".csv"@;
    assert(!archivo.contains('\\')) by {
        if archivo.contains('\\') {
            let k = choose|k: int| 0 <= k < archivo.len() && archivo[k] == '\\';
            if k < nombre.len() {
                assert(nombre[k] == '\\');
            }
        }
    }
    nombre_tras_la_barra(carpeta, archivo);
    let n = nombre.len() as int;
    assert(archivo.subrange(n, n + 4) =~= ".csv"@);
    crate::texto::quitar_la_primera_vez(archivo, ".csv"@, n);
    assert(archivo.take(n) =~= nombre);
    assert(sin_patron(archivo.skip(n + 4), ".csv"@).len() == 0);
    assert(archivo.take(n) + sin_patron(archivo.skip(n + 4), ".csv"@) =~= nombre);
}

/// A file is read with commas between its columns, first with line feeds and then with carriage
/// returns at the ends of its lines.
pub proof fn lecturas_de_un_archivo(contenido: Seq<u8>, lectura: Option<Tabla>)
    ensures
        es_lectura(contenido, COMA, SALTO, lectura) <==> exists|corte: nat|
            #[trigger] tabla_csv(contenido, 44, 10, corte) == lectura,
        es_lectura(contenido, COMA, RETORNO, lectura) <==> exists|corte: nat|
            #[trigger] tabla_csv(contenido, 44, 13, corte) == lectura,
{
}

/// What is read as a table is the text of the whole file, in UTF-8, whatever the encoding of the file.
pub proof fn se_lee_todo(leidos: Seq<u8>, contenido: Seq<u8>)
    ensures
        vstd::utf8::decode_utf8(texto_en_utf_8(leidos, contenido)) == texto_de(leidos, contenido),
        !(codificacion_de(muestra(leidos)) == "UTF-8"@ && valid_utf8(contenido)) ==> texto_de(
            leidos,
            contenido,
        ) == texto_decodificado(codificacion_de(muestra(leidos)), contenido),
{
    vstd::utf8::encode_utf8_decode_utf8(texto_de(leidos, contenido));
}

/// What a file that is read comes to: the table is the first reading if it has rows, else the second.
/// The report tells of it and of the file, and what is kept is the table without its empty rows.
pub proof fn lo_que_dice_un_reporte(
    r: Result<(ReporteCsv, ContenedorDatos), String>,
    ruta: Seq<char>,
    leidos: Seq<u8>,
    contenido: Seq<u8>,
    primera: Option<Tabla>,
    segunda: Option<Tabla>,
    t: Tabla,
)
    requires
        leido(r, ruta, leidos, contenido, primera, segunda),
        r is Ok,
        primera is Some && primera->0.filas.len() > 0 ==> t == primera->0,
        primera is Some && primera->0.filas.len() == 0 && segunda is Some ==> t == segunda->0,
    ensures
        primera is Some,
        primera->0.filas.len() == 0 ==> segunda is Some,
        t.filas.len() > 0,
        r->Ok_0.1.dataframe is Some,
        tabla(r->Ok_0.1.dataframe->0) == sin_filas_vacias(t),
        r->Ok_0.0.total_filas == sin_filas_vacias(t).filas.len(),
        r->Ok_0.0.total_filas + r->Ok_0.0.null_rows == t.filas.len(),
        r->Ok_0.0.total_columnas == t.nombres.len(),
        esquema_de(r->Ok_0.0.esquema_columnas@, t),
        r->Ok_0.0.sep_by_coma <==> primera->0.nombres.len() >= 2,
        r->Ok_0.0.encoding_aplicado@ == codificacion_de(muestra(leidos)),
        lista_de_corruptos(r->Ok_0.0.caracteres_corruptos@, texto_de(leidos, contenido)),
        r->Ok_0.0.nombre_archivo.validada(nombre_en(ruta)),
        r->Ok_0.0.hay_filas_repetidas <==> repeticion_parcial(sin_filas_vacias(t).filas),
        r->Ok_0.0.nombres_columnas_repetidas <==> hay_nombre_repetido(t.nombres),
{
}

/// The flag on repeated names is set exactly when some name has `_duplicated_` in it.
pub proof fn nombres_con_repeticion(nombres: Seq<Seq<char>>)
    ensures
        hay_nombre_repetido(nombres) <==> exists|k: int, x: Seq<char>, y: Seq<char>|
            0 <= k < nombres.len() && #[trigger] nombres[k] == #[trigger] (x + "_duplicated_"@ + y),
{
    let p = "_duplicated_"@;
    if hay_nombre_repetido(nombres) {
        let k = choose|k: int| 0 <= k < nombres.len() && contiene_patron(#[trigger] nombres[k], p);
        crate::texto::contener_es_rodear(nombres[k], p, p, p);
        let (x, y) = choose|x: Seq<char>, y: Seq<char>| nombres[k] == #[trigger] (x + p + y);
        assert(nombres[k] == x + p + y);
    }
    if exists|k: int, x: Seq<char>, y: Seq<char>|
        0 <= k < nombres.len() && #[trigger] nombres[k] == #[trigger] (x + p + y) {
        let (k, x, y) = choose|k: int, x: Seq<char>, y: Seq<char>|
            0 <= k < nombres.len() && #[trigger] nombres[k] == #[trigger] (x + p + y);
        crate::texto::contener_es_rodear(nombres[k], p, x, y);
        assert(contiene_patron(nombres[k], p));
    }
}

/// When a file is read and when it is refused, and with what message.
pub proof fn cuando_se_lee_un_archivo(
    r: Result<(ReporteCsv, ContenedorDatos), String>,
    ruta: Seq<char>,
    leidos: Seq<u8>,
    contenido: Seq<u8>,
    primera: Option<Tabla>,
    segunda: Option<Tabla>,
)
    requires
        leido(r, ruta, leidos, contenido, primera, segunda),
    ensures
        primera is None ==> r is Err && r->Err_0@ == "No se pudo construir el DataFrame"@,
        primera is Some && primera->0.filas.len() == 0 && segunda is None ==> r is Err
            && r->Err_0@ == "No se pudo construir el DataFrame"@,
        primera is Some && primera->0.filas.len() == 0 && segunda is Some
            && segunda->0.filas.len() == 0 ==> r is Err && r->Err_0@
            == "No se pudo leer correctamente el archivo. Verifica que no tenga columnas sin nombre ni encabezados"@,
        primera is Some && (primera->0.filas.len() > 0 || segunda is Some
            && segunda->0.filas.len() > 0) ==> {
            let t = if primera->0.filas.len() > 0 {
                primera->0
            } else {
                segunda->0
            };
            &&& r is Ok <==> t.filas.len() <= 4294967294 && t.nombres.len() > 0 && (t.nombres.len()
                == 1 || !t.nombres.contains("*"@))
            &&& t.filas.len() > 4294967294 ==> r->Err_0@ == "El archivo tiene demasiadas filas"@
            &&& t.filas.len() <= 4294967294 && t.nombres.len() == 0 ==> r->Err_0@
                == "fracasó la función La lista de columnas está vacía"@
            &&& t.filas.len() <= 4294967294 && t.nombres.len() > 1 && t.nombres.contains("*"@)
                ==> "fracasó la función Fracasó la búsqueda de nulos "@.is_prefix_of(r->Err_0@)
        },
{
    let a = "fracasó la función "@;
    let b = "Fracasó la búsqueda de nulos "@;
    reveal_strlit("fracasó la función ");
    reveal_strlit("Fracasó la búsqueda de nulos ");
    reveal_strlit("fracasó la función Fracasó la búsqueda de nulos ");
    assert(a + b =~= "fracasó la función Fracasó la búsqueda de nulos "@);
    reveal_strlit("La lista de columnas está vacía");
    reveal_strlit("fracasó la función La lista de columnas está vacía");
    assert(a + "La lista de columnas está vacía"@
        =~= "fracasó la función La lista de columnas está vacía"@);
}

}
