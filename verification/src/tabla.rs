//! Tables, as `polars` keeps them.
//!
//! A [`Tabla`] is what the contracts say of a `DataFrame`: the names and the types of its columns,
//! and its rows. The functions of this module are the calls into `polars` and `serde_json`.
use crate::texto::vistas;
use polars::prelude::{
    col, Column, CsvReadOptions, CsvReader, DataFrame, DataType, Expr, IntoLazy, IntoSeries,
    JsonFormat, JsonWriter, PlSmallStr, PolarsError, SerReader, SerWriter, Series, SeriesMethods,
};
use serde_json::Value;
use std::io::Cursor;
use vstd::prelude::*;

verus! {

/// A table.
#[verifier::external_type_specification]
#[verifier::external_body]
pub struct ExDataFrame(DataFrame);

/// A column of a table. A `DataFrame` gives columns when it is indexed, so its own declaration needs
/// this one.
#[verifier::external_type_specification]
#[verifier::external_body]
pub struct ExColumn(Column);

/// A sequence of values of one type.
#[verifier::external_type_specification]
#[verifier::external_body]
pub struct ExSeries(Series);

/// An expression over the columns of a table.
#[verifier::external_type_specification]
#[verifier::external_body]
pub struct ExExpr(Expr);

/// What `polars` reports when it fails.
#[verifier::external_type_specification]
#[verifier::external_body]
pub struct ExPolarsError(PolarsError);

/// A JSON value.
#[verifier::external_type_specification]
#[verifier::external_body]
pub struct ExValue(Value);

/// What `serde_json` reports when it fails.
#[verifier::external_type_specification]
#[verifier::external_body]
pub struct ExErrorJson(serde_json::Error);

/// The types of columns that a schema tells apart.
#[derive(Clone, Copy, Debug, PartialEq, Eq, Structural)]
pub enum TipoDato {
    Fecha,
    Flotante,
    Entero,
    Otro,
}

/// The type of a column. Each type that has no variant of its own has an integer that stands for it.
pub enum Tipo {
    Fecha,
    Flotante,
    Entero,
    Logico,
    Texto,
    Otro(int),
}

impl Tipo {
    /// What a schema takes the type for.
    pub open spec fn dato(self) -> TipoDato {
        match self {
            Tipo::Fecha => TipoDato::Fecha,
            Tipo::Flotante => TipoDato::Flotante,
            Tipo::Entero => TipoDato::Entero,
            _ => TipoDato::Otro,
        }
    }

    /// Whether a column of a CSV file may be read as one of this type.
    pub open spec fn de_csv(self) -> bool {
        self is Flotante || self is Entero || self is Logico || self is Texto
    }
}

/// The most rows that `polars` works with: it counts them in 32 bits, and keeps one number aside.
pub const MAX_FILAS: usize = 0xffff_fffe;

/// A row. A cell without a value is `None`. Otherwise it has an integer that stands for its value:
/// two cells of a column have the same one exactly when `polars` takes their values for equal when
/// it groups rows.
pub type Fila = Seq<Option<int>>;

/// What a table holds.
pub struct Tabla {
    pub nombres: Seq<Seq<char>>,
    pub tipos: Seq<Tipo>,
    pub filas: Seq<Fila>,
}

impl Tabla {
    /// Whether `polars` can work with this many rows.
    pub open spec fn cabe(self) -> bool {
        self.filas.len() <= MAX_FILAS
    }

    /// Whether no two columns have the same name.
    pub open spec fn nombres_distintos(self) -> bool {
        self.nombres.no_duplicates()
    }

    /// Whether `polars` can work with the table: its rows are not too many, and its columns can be
    /// told apart by their names.
    pub open spec fn bien_formada(self) -> bool {
        self.cabe() && self.nombres_distintos()
    }

    /// Whether each column has a type that a column of a CSV file may have.
    pub open spec fn tipos_de_csv(self) -> bool {
        forall|k: int| 0 <= k < self.tipos.len() ==> (#[trigger] self.tipos[k]).de_csv()
    }
}

/// What the table `df` holds.
pub uninterp spec fn tabla(df: DataFrame) -> Tabla;

/// `polars::frame::DataFrame::get_column_names`, as strings. Each column has a type, and each row has
/// a cell for each column.
#[verifier::external_body]
pub(crate) fn nombres_de(df: &DataFrame) -> (r: Vec<String>)
    ensures
        vistas(r@) == tabla(*df).nombres,
        r@.len() == tabla(*df).tipos.len(),
        forall|i: int|
            0 <= i < tabla(*df).filas.len() ==> (#[trigger] tabla(*df).filas[i]).len() == r@.len(),
{
    df.get_column_names().iter().map(|s| s.to_string()).collect()
}

/// `polars::frame::DataFrame::height`: the number of rows.
#[verifier::external_body]
pub(crate) fn altura(df: &DataFrame) -> (r: usize)
    ensures
        r == tabla(*df).filas.len(),
{
    df.height()
}

/// `polars::frame::DataFrame::width`: the number of columns.
#[verifier::external_body]
pub(crate) fn ancho(df: &DataFrame) -> (r: usize)
    ensures
        r == tabla(*df).nombres.len(),
{
    df.width()
}

/// `Clone` for `polars::frame::DataFrame`: a table that holds the same.
#[verifier::external_body]
pub(crate) fn copia(df: &DataFrame) -> (r: DataFrame)
    ensures
        tabla(r) == tabla(*df),
{
    df.clone()
}

/// What `polars` reads from a CSV file with a header, or `None` where it fails. The file is read in
/// pieces of about the length `corte`, and on a malformed file the outcome depends on where it is
/// cut.
pub uninterp spec fn tabla_csv(
    contenido: Seq<u8>,
    separador: u8,
    fin_linea: u8,
    corte: nat,
) -> Option<Tabla>;

/// What the table that was read holds, if one was.
pub open spec fn leida(r: Result<DataFrame, PolarsError>) -> Option<Tabla> {
    match r {
        Ok(df) => Some(tabla(df)),
        Err(_) => None,
    }
}

/// `polars::io::csv::read::CsvReader::finish`, on a file held in memory and with the default
/// options, but for the separator and the end of line. The outcome depends on the file, on these
/// two, and on the length of the pieces that it is read in, which `polars` sets by the number of its
/// threads. Dates are not looked for: a column is read as numbers, truth values or text. The columns
/// are kept by their names, so no two of them have the same one.
#[verifier::external_body]
pub(crate) fn leer_tabla(contenido: &[u8], separador: u8, fin_linea: u8) -> (r: Result<
    DataFrame,
    PolarsError,
>)
    ensures
        exists|corte: nat| tabla_csv(contenido@, separador, fin_linea, corte) == leida(r),
        r matches Ok(df) ==> tabla(df).tipos_de_csv() && tabla(df).nombres_distintos(),
{
    CsvReader::new(Cursor::new(contenido)).with_options(
        CsvReadOptions::default().with_has_header(true).map_parse_options(
            |opts| opts.with_separator(separador).with_eol_char(fin_linea),
        ),
    ).finish()
}

/// A condition on the rows of a table.
pub enum Condicion {
    /// The column with this name has no value.
    Nula(Seq<char>),
    /// The only column has no value.
    Comodin,
    /// Both conditions hold.
    Ambas(Box<Condicion>, Box<Condicion>),
    /// The condition does not hold.
    Negada(Box<Condicion>),
}

impl Condicion {
    /// Whether the condition speaks of the only column of a table.
    pub open spec fn con_comodin(self) -> bool
        decreases self,
    {
        match self {
            Condicion::Nula(_) => false,
            Condicion::Comodin => true,
            Condicion::Ambas(a, b) => a.con_comodin() || b.con_comodin(),
            Condicion::Negada(a) => a.con_comodin(),
        }
    }

    /// Whether every column that the condition speaks of is one of `nombres`.
    pub open spec fn sobre(self, nombres: Seq<Seq<char>>) -> bool
        decreases self,
    {
        match self {
            Condicion::Nula(n) => nombres.contains(n),
            Condicion::Comodin => nombres.len() == 1,
            Condicion::Ambas(a, b) => a.sobre(nombres) && b.sobre(nombres),
            Condicion::Negada(a) => a.sobre(nombres),
        }
    }

    /// Whether the condition holds of the row `fila` of a table whose columns have these names.
    pub open spec fn se_cumple(self, nombres: Seq<Seq<char>>, fila: Fila) -> bool
        decreases self,
    {
        match self {
            Condicion::Nula(n) => fila[nombres.index_of(n)] is None,
            Condicion::Comodin => fila[0] is None,
            Condicion::Ambas(a, b) => a.se_cumple(nombres, fila) && b.se_cumple(nombres, fila),
            Condicion::Negada(a) => !a.se_cumple(nombres, fila),
        }
    }
}

/// The condition that an expression states, where it is made of the functions below.
pub uninterp spec fn condicion(e: Expr) -> Option<Condicion>;

/// `polars::prelude::col`, then `Expr::is_null`: the column has no value. The name `*` means every
/// column, so what it states makes sense of a table with one column alone. With the `regex` feature
/// of `polars` off, as it is here, no other name has a meaning of its own.
#[verifier::external_body]
pub(crate) fn es_nula(nombre: &str) -> (r: Expr)
    ensures
        condicion(r) == Some(
            if nombre@ == "*"@ {
                Condicion::Comodin
            } else {
                Condicion::Nula(nombre@)
            },
        ),
{
    col(nombre).is_null()
}

/// `Expr::and`: both conditions hold.
#[verifier::external_body]
pub(crate) fn ambas(a: Expr, b: Expr) -> (r: Expr)
    ensures
        condicion(a) matches Some(x) ==> condicion(b) matches Some(y) ==> condicion(r) == Some(
            Condicion::Ambas(Box::new(x), Box::new(y)),
        ),
{
    a.and(b)
}

/// `Expr::not`: the condition does not hold.
#[verifier::external_body]
pub(crate) fn negada(a: Expr) -> (r: Expr)
    ensures
        condicion(a) matches Some(x) ==> condicion(r) == Some(Condicion::Negada(Box::new(x))),
{
    a.not()
}

/// `LazyFrame::filter` and `LazyFrame::collect`, on a copy of the table: the same columns, and those
/// of its rows of which the expression holds, in their order. It succeeds on a [`Condicion`] over the
/// columns of the table. It fails on one that speaks of the only column where there is not just one,
/// since the expression then stands for as many as there are columns. The expression is evaluated by
/// nested calls, so that one over very many columns takes that much stack.
#[verifier::external_body]
pub(crate) fn filtrar(df: &DataFrame, e: Expr) -> (r: Result<DataFrame, PolarsError>)
    requires
        tabla(*df).bien_formada(),
    ensures
        condicion(e) matches Some(c) ==> c.sobre(tabla(*df).nombres) ==> r is Ok,
        condicion(e) matches Some(c) ==> c.sobre(tabla(*df).nombres) ==> tabla(r->Ok_0) == (Tabla {
            nombres: tabla(*df).nombres,
            tipos: tabla(*df).tipos,
            filas: tabla(*df).filas.filter(|f: Fila| c.se_cumple(tabla(*df).nombres, f)),
        }),
        condicion(e) matches Some(c) ==> c.con_comodin() && tabla(*df).nombres.len() != 1 ==> r is Err,
{
    df.clone().lazy().filter(e).collect()
}

/// `polars::series::Series::date` succeeds on a column of dates and on no other.
#[verifier::external_body]
pub(crate) fn es_fecha(df: &DataFrame, nombre: &str) -> (r: bool)
    requires
        tabla(*df).nombres_distintos(),
        tabla(*df).nombres.contains(nombre@),
    ensures
        r == (tabla(*df).tipos[tabla(*df).nombres.index_of(nombre@)] is Fecha),
{
    df.column(nombre).unwrap().as_materialized_series().date().is_ok()
}

/// `polars::frame::column::Column::dtype`: whether it is that of double precision numbers.
#[verifier::external_body]
pub(crate) fn es_flotante(df: &DataFrame, nombre: &str) -> (r: bool)
    requires
        tabla(*df).nombres_distintos(),
        tabla(*df).nombres.contains(nombre@),
    ensures
        r == (tabla(*df).tipos[tabla(*df).nombres.index_of(nombre@)] is Flotante),
{
    df.column(nombre).unwrap().dtype() == &DataType::Float64
}

/// `polars::series::Series::i64` succeeds on a column of 64-bit integers and on no other.
#[verifier::external_body]
pub(crate) fn es_entero(df: &DataFrame, nombre: &str) -> (r: bool)
    requires
        tabla(*df).nombres_distintos(),
        tabla(*df).nombres.contains(nombre@),
    ensures
        r == (tabla(*df).tipos[tabla(*df).nombres.index_of(nombre@)] is Entero),
{
    df.column(nombre).unwrap().as_materialized_series().i64().is_ok()
}

/// The name of a series.
pub uninterp spec fn nombre_serie(s: Series) -> Seq<char>;

/// The values of a series of truth values none of which is missing.
pub uninterp spec fn booleanos(s: Series) -> Option<Seq<bool>>;

/// Whether another row of `filas` is equal to the row `i`.
pub open spec fn repetida(filas: Seq<Fila>, i: int) -> bool {
    exists|j: int| 0 <= j < filas.len() && j != i && #[trigger] filas[j] == filas[i]
}

/// `polars::frame::DataFrame::is_duplicated`, as a series: which rows are equal to another one. The
/// series has an empty name. There is none of a table without columns; of one whose columns have the
/// types of a CSV file there always is.
#[verifier::external_body]
pub(crate) fn filas_repetidas(df: &DataFrame) -> (r: Result<Series, PolarsError>)
    requires
        tabla(*df).bien_formada(),
    ensures
        tabla(*df).nombres.len() == 0 ==> r is Err,
        tabla(*df).nombres.len() > 0 && tabla(*df).tipos_de_csv() ==> r is Ok,
        r matches Ok(s) ==> nombre_serie(s) == ""@,
        r matches Ok(s) ==> booleanos(s) == Some(
            Seq::new(tabla(*df).filas.len(), |i: int| repetida(tabla(*df).filas, i)),
        ),
{
    df.is_duplicated().map(|m| m.into_series())
}

/// `polars::prelude::SeriesMethods::value_counts`, sorted, in parallel and normalized: a table with
/// one row for each value that occurs. It fails where `nombre`, the name for the column of counts, is
/// the name of the series.
#[verifier::external_body]
pub(crate) fn contar_valores(s: &Series, nombre: &str) -> (r: Result<DataFrame, PolarsError>)
    requires
        booleanos(*s) is Some,
        booleanos(*s)->0.len() <= MAX_FILAS,
    ensures
        r is Ok <==> nombre_serie(*s) != nombre@,
        r matches Ok(q) ==> tabla(q).filas.len() == booleanos(*s)->0.to_set().len(),
{
    s.value_counts(true, true, PlSmallStr::from_str(nombre), true)
}

/// The rows of `filas` from `inicio` on, at most `cuantas` of them.
pub open spec fn tramo(filas: Seq<Fila>, inicio: int, cuantas: int) -> Seq<Fila> {
    if inicio >= filas.len() {
        Seq::empty()
    } else if inicio + cuantas >= filas.len() {
        filas.skip(inicio)
    } else {
        filas.subrange(inicio, inicio + cuantas)
    }
}

/// The table that `polars::frame::DataFrame::slice` takes out of `df`.
pub uninterp spec fn tramo_de(df: DataFrame, inicio: int, cuantas: int) -> DataFrame;

/// `polars::frame::DataFrame::slice`, from a row that is not counted from the end. It depends on the
/// table and on the two numbers alone.
#[verifier::external_body]
pub(crate) fn tomar_tramo(df: &DataFrame, inicio: i64, cuantas: usize) -> (r: DataFrame)
    requires
        inicio >= 0,
        tabla(*df).cabe(),
    ensures
        r == tramo_de(*df, inicio as int, cuantas as int),
        tabla(r) == (Tabla {
            nombres: tabla(*df).nombres,
            tipos: tabla(*df).tipos,
            filas: tramo(tabla(*df).filas, inicio as int, cuantas as int),
        }),
{
    df.slice(inicio, cuantas)
}

/// The table `t` after its column `de` is renamed `a`. Nothing changes where there is no such
/// column, or where there is one with the new name already.
pub open spec fn renombrada(t: Tabla, de: Seq<char>, a: Seq<char>) -> Tabla {
    if t.nombres.contains(de) && !t.nombres.contains(a) {
        Tabla {
            nombres: t.nombres.update(t.nombres.index_of(de), a),
            tipos: t.tipos,
            filas: t.filas,
        }
    } else {
        t
    }
}

/// `polars::frame::DataFrame::rename`. It fails, and changes nothing, where there is a column with
/// the new name already, or none with the old one; a column renamed to its own name stays.
#[verifier::external_body]
pub(crate) fn renombrar(df: &mut DataFrame, de: &str, a: &str) -> (r: Result<(), PolarsError>)
    requires
        tabla(*old(df)).nombres_distintos(),
    ensures
        tabla(*final(df)) == renombrada(tabla(*old(df)), de@, a@),
        r is Ok <==> de@ == a@ || (tabla(*old(df)).nombres.contains(de@) && !tabla(
            *old(df),
        ).nombres.contains(a@)),
{
    df.rename(de, a.into()).map(|_| ())
}

/// The table `t` without the column at the position `k`.
pub open spec fn sin_posicion(t: Tabla, k: int) -> Tabla {
    Tabla {
        nombres: t.nombres.remove(k),
        tipos: t.tipos.remove(k),
        filas: t.filas.map_values(|f: Fila| f.remove(k)),
    }
}

/// `polars::frame::DataFrame::drop`: the table without one of its columns, each of which has a type.
/// It fails where there is no column with the name.
#[verifier::external_body]
pub(crate) fn quitar_columna(df: &DataFrame, nombre: &str) -> (r: Result<DataFrame, PolarsError>)
    requires
        tabla(*df).nombres_distintos(),
    ensures
        r is Ok <==> tabla(*df).nombres.contains(nombre@),
        r matches Ok(q) ==> {
            &&& tabla(*df).tipos.len() == tabla(*df).nombres.len()
            &&& tabla(q) == sin_posicion(tabla(*df), tabla(*df).nombres.index_of(nombre@))
        },
{
    df.drop(nombre)
}

/// The JSON text that a table is written as.
pub uninterp spec fn json_de(df: DataFrame) -> Seq<u8>;

/// `polars::io::json::JsonWriter::finish`, in the format of one array with an object for each row.
/// What it writes depends on the table alone and is a JSON text; writing it to memory does not fail.
/// It may rearrange the table in memory, which still holds the same. There are types of columns that
/// it panics on, but none of a CSV file.
#[verifier::external_body]
pub(crate) fn escribir_json(df: &mut DataFrame) -> (r: Result<Vec<u8>, PolarsError>)
    requires
        tabla(*old(df)).bien_formada(),
        tabla(*old(df)).tipos_de_csv(),
    ensures
        tabla(*final(df)) == tabla(*old(df)),
        r is Ok,
        r->Ok_0@ == json_de(*old(df)),
        valor_json(r->Ok_0@) is Some,
{
    let mut buf: Vec<u8> = Vec::new();
    JsonWriter::new(&mut buf).with_json_format(JsonFormat::Json).finish(df)?;
    Ok(buf)
}

/// The value that a JSON text stands for, or `None` where it is not one.
pub uninterp spec fn valor_json(texto: Seq<u8>) -> Option<Value>;

/// `serde_json::from_slice`, which depends on the text alone.
#[verifier::external_body]
pub(crate) fn leer_json(texto: &[u8]) -> (r: Result<Value, serde_json::Error>)
    ensures
        match r {
            Ok(v) => valor_json(texto@) == Some(v),
            Err(_) => valor_json(texto@) is None,
        },
{
    serde_json::from_slice::<Value>(texto)
}

/// `Display` for `polars::prelude::PolarsError`, as a string. Of its wording nothing is said.
#[verifier::external_body]
pub(crate) fn mensaje_polars(e: &PolarsError) -> (r: String)
{
    e.to_string()
}

/// `Display` for `serde_json::Error`, as a string. Of its wording nothing is said.
#[verifier::external_body]
pub(crate) fn mensaje_json(e: &serde_json::Error) -> (r: String)
{
    e.to_string()
}

/// A table can be worked with unless it has more rows than there are numbers for them, or two columns
/// with the same name.
pub proof fn tablas_que_se_manejan(t: Tabla)
    ensures
        t.cabe() <==> t.filas.len() <= 4294967294,
        t.bien_formada() <==> t.filas.len() <= 4294967294 && (forall|i: int, j: int|
            0 <= i < j < t.nombres.len() ==> #[trigger] t.nombres[i] != #[trigger] t.nombres[j]),
{
}

}
