//! Work on the table that has been read: fetching rows, removing a column, renaming columns.
use crate::esquema::{nombres_simples, obtener_esquema_columnas, EsquemaColumna};
use crate::reporte::ContenedorDatos;
use crate::tabla::{
    copia, escribir_json, json_de, leer_json, mensaje_json, mensaje_polars, quitar_columna,
    renombrada, renombrar, sin_posicion, tabla, tomar_tramo, tramo, tramo_de, valor_json, Fila, Tabla,
};
use polars::prelude::{DataFrame, PolarsError};
use serde_json::Value;
use vstd::prelude::*;

verus! {

/// The row that the block with the number `start_index` starts at, the first block having the
/// number one.
pub open spec fn inicio_de(start_index: int, block_size: int) -> int {
    (start_index - 1) * block_size
}

/// The row that a block starts at, or a message where it is past what a table can hold.
pub fn inicio_de_bloque(start_index: usize, block_size: usize) -> (r: Result<i64, String>)
    requires
        start_index >= 1,
        inicio_de(start_index as int, block_size as int) <= usize::MAX,
    ensures
        match r {
            Ok(i) => i == inicio_de(start_index as int, block_size as int),
            Err(m) => inicio_de(start_index as int, block_size as int) > i64::MAX && m@
                == "No se pudieron recuperar las filas"@,
        },
{
    let start_index = if start_index == 1 {
        assert(0 * block_size == 0);
        0
    } else {
        (start_index - 1) * block_size
    };
    if start_index as u64 > i64::MAX as u64 {
        Err("No se pudieron recuperar las filas".to_owned())
    } else {
        Ok(start_index as i64)
    }
}

/// The value that a JSON text that was written stands for, or a message that says which step
/// failed.
pub fn estructurar(escrito: Result<Vec<u8>, PolarsError>) -> (r: Result<Value, String>)
    ensures
        match escrito {
            Ok(b) => match valor_json(b@) {
                Some(v) => r == Ok::<Value, String>(v),
                None => r matches Err(m) && "Error al estructurar el JSON: "@.is_prefix_of(m@),
            },
            Err(_) => r matches Err(m) && "Error de formato al escribir JSON: "@.is_prefix_of(m@),
        },
{
    match escrito {
        Ok(buf) => match leer_json(buf.as_slice()) {
            Ok(v) => Ok(v),
            Err(e) => {
                let inicio = "Error al estructurar el JSON: ".to_owned();
                Err(inicio.concat(mensaje_json(&e).as_str()))
            },
        },
        Err(e) => {
            let inicio = "Error de formato al escribir JSON: ".to_owned();
            Err(inicio.concat(mensaje_polars(&e).as_str()))
        },
    }
}

/// The rows of the block with the number `start_index`, in a table of their own.
pub open spec fn bloque_de(t: Tabla, start_index: int, block_size: int) -> Tabla {
    Tabla {
        nombres: t.nombres,
        tipos: t.tipos,
        filas: tramo(t.filas, inicio_de(start_index, block_size), block_size),
    }
}

/// The block with the number `start_index`, as it is taken out of `df`.
pub open spec fn bloque_en(df: DataFrame, start_index: int, block_size: int) -> DataFrame {
    tramo_de(df, inicio_de(start_index, block_size), block_size)
}

/// Fetches a block of rows as a JSON value. Blocks have `block_size` rows, the last one what is
/// left, and the first one has the number one. It fails only on a block that starts past what a table
/// can hold.
pub fn fetch_rows(start_index: usize, block_size: usize, estado: &ContenedorDatos) -> (r: Result<
    Value,
    String,
>)
    requires
        start_index >= 1,
        inicio_de(start_index as int, block_size as int) <= usize::MAX,
        inicio_de(start_index as int, block_size as int) <= i64::MAX ==> estado.dataframe is Some
            && estado.valido(),
    ensures
        if inicio_de(start_index as int, block_size as int) > i64::MAX {
            r matches Err(m) && m@ == "No se pudieron recuperar las filas"@
        } else {
            let b = bloque_en(estado.dataframe->0, start_index as int, block_size as int);
            &&& tabla(b) == bloque_de(
                tabla(estado.dataframe->0),
                start_index as int,
                block_size as int,
            )
            &&& valor_json(json_de(b)) matches Some(v)
            &&& r == Ok::<Value, String>(v)
        },
{
    let inicio = match inicio_de_bloque(start_index, block_size) {
        Ok(i) => i,
        Err(m) => return Err(m),
    };
    assert(inicio >= 0) by (nonlinear_arith)
        requires
            inicio == (start_index - 1) * block_size,
            start_index >= 1,
            block_size >= 0,
    ;
    let df = estado.dataframe.as_ref().unwrap();
    let mut bloque = tomar_tramo(df, inicio, block_size);
    let escrito = escribir_json(&mut bloque);
    estructurar(escrito)
}

/// The first block starts at the first row, and each one starts `block_size` rows after the one before.
pub proof fn inicios_de_los_bloques(start_index: int, block_size: int)
    ensures
        inicio_de(1, block_size) == 0,
        inicio_de(start_index + 1, block_size) == inicio_de(start_index, block_size) + block_size,
{
    assert((1 - 1) * block_size == 0) by (nonlinear_arith);
    assert((start_index + 1 - 1) * block_size == (start_index - 1) * block_size + block_size)
        by (nonlinear_arith);
}

/// The row `i` of a block is the row of the table that stands `i` rows after its start, and a block
/// has `block_size` rows, or what is left of the table if that is less. The columns are all there.
pub proof fn filas_de_un_bloque(t: Tabla, df: DataFrame, start_index: int, block_size: int, i: int)
    requires
        start_index >= 1,
        block_size >= 0,
    ensures
        bloque_de(t, start_index, block_size).nombres == t.nombres,
        bloque_de(t, start_index, block_size).tipos == t.tipos,
        ({
            let a = (start_index - 1) * block_size;
            let n = bloque_de(t, start_index, block_size).filas.len();
            &&& a >= 0
            &&& a >= t.filas.len() ==> n == 0
            &&& a < t.filas.len() && a + block_size >= t.filas.len() ==> n == t.filas.len() - a
            &&& a + block_size < t.filas.len() ==> n == block_size
            &&& 0 <= i < n ==> bloque_de(t, start_index, block_size).filas[i] == t.filas[a + i]
        }),
        bloque_en(df, start_index, block_size) == tramo_de(
            df,
            (start_index - 1) * block_size,
            block_size,
        ),
{
    assert((start_index - 1) * block_size >= 0) by (nonlinear_arith)
        requires
            start_index >= 1,
            block_size >= 0,
    ;
}

/// One block follows the other: the rows of the blocks before one, then those of the block itself,
/// are the rows of the blocks up to it, with none left out and none twice.
pub proof fn bloques_consecutivos(filas: Seq<Fila>, start_index: int, block_size: int)
    requires
        start_index >= 1,
        block_size >= 0,
    ensures
        tramo(filas, 0, inicio_de(start_index, block_size)) + tramo(
            filas,
            inicio_de(start_index, block_size),
            block_size,
        ) == tramo(filas, 0, inicio_de(start_index + 1, block_size)),
{
    let i = inicio_de(start_index, block_size);
    assert(i >= 0 && inicio_de(start_index + 1, block_size) == i + block_size) by (nonlinear_arith)
        requires
            i == (start_index - 1) * block_size,
            start_index >= 1,
            block_size >= 0,
            inicio_de(start_index + 1, block_size) == (start_index + 1 - 1) * block_size,
    ;
    assert(tramo(filas, 0, i) + tramo(filas, i, block_size) =~= tramo(filas, 0, i + block_size));
}

/// The rows of the first `n` blocks of `t`, one block after the other.
pub open spec fn filas_de_bloques(t: Tabla, block_size: int, n: int) -> Seq<Fila>
    decreases n,
{
    if n <= 0 {
        Seq::empty()
    } else {
        filas_de_bloques(t, block_size, n - 1) + bloque_de(t, n, block_size).filas
    }
}

/// How many blocks it takes for the rows of `t`.
pub open spec fn numero_de_bloques(t: Tabla, block_size: int) -> int {
    (t.filas.len() + block_size - 1) / block_size
}

proof fn lema_filas_de_bloques(t: Tabla, block_size: int, n: int)
    requires
        block_size >= 0,
        n >= 0,
    ensures
        filas_de_bloques(t, block_size, n) == tramo(t.filas, 0, inicio_de(n + 1, block_size)),
    decreases n,
{
    if n > 0 {
        lema_filas_de_bloques(t, block_size, n - 1);
        bloques_consecutivos(t.filas, n, block_size);
    } else {
        assert(inicio_de(1, block_size) == 0) by (nonlinear_arith)
            requires
                inicio_de(1, block_size) == (1 - 1) * block_size,
        ;
        assert(tramo(t.filas, 0, 0) =~= Seq::empty());
    }
}

/// The blocks of a table, put together, are its rows: each of them once, and in order. Every block
/// but the last has `block_size` rows, and the last has one at least.
pub proof fn bloques_cubren(t: Tabla, block_size: int)
    requires
        block_size >= 1,
    ensures
        filas_de_bloques(t, block_size, numero_de_bloques(t, block_size)) == t.filas,
        forall|k: int|
            1 <= k < numero_de_bloques(t, block_size) ==> (#[trigger] bloque_de(
                t,
                k,
                block_size,
            )).filas.len() == block_size,
        t.filas.len() > 0 ==> 1 <= bloque_de(
            t,
            numero_de_bloques(t, block_size),
            block_size,
        ).filas.len() <= block_size,
{
    let h = t.filas.len() as int;
    let n = numero_de_bloques(t, block_size);
    assert(n >= 0 && (n - 1) * block_size < h <= n * block_size || h == 0 && n == 0)
        by (nonlinear_arith)
        requires
            n == (h + block_size - 1) / block_size,
            block_size >= 1,
            h >= 0,
    ;
    assert(inicio_de(n + 1, block_size) == n * block_size);
    lema_filas_de_bloques(t, block_size, n);
    assert(tramo(t.filas, 0, n * block_size) =~= t.filas) by {
        assert(h == 0 && n == 0 ==> n * block_size == 0) by (nonlinear_arith);
    }
    assert forall|k: int| 1 <= k < n implies (#[trigger] bloque_de(t, k, block_size)).filas.len()
        == block_size by {
        assert(0 <= (k - 1) * block_size && (k - 1) * block_size + block_size <= (n - 1)
            * block_size) by (nonlinear_arith)
            requires
                1 <= k < n,
                block_size >= 1,
        ;
    }
    if h > 0 {
        assert(0 <= (n - 1) * block_size && n * block_size == (n - 1) * block_size + block_size)
            by (nonlinear_arith)
            requires
                n >= 1,
                block_size >= 1,
        ;
    }
}

/// The table `t` without the column `nombre`, if it has one.
pub open spec fn sin_columna(t: Tabla, nombre: Seq<char>) -> Tabla {
    if t.nombres.contains(nombre) {
        sin_posicion(t, t.nombres.index_of(nombre))
    } else {
        t
    }
}

/// Removes the column `columna` from the table, if there is a table and it has the column.
pub fn eliminar_columna(columna: &str, estado: &mut ContenedorDatos)
    requires
        old(estado).dataframe matches Some(df) ==> tabla(df).nombres_distintos(),
    ensures
        match old(estado).dataframe {
            Some(df) => {
                &&& final(estado).dataframe matches Some(q)
                &&& tabla(q) == sin_columna(tabla(df), columna@)
            },
            None => final(estado).dataframe is None,
        },
        old(estado).bien_formado() ==> final(estado).bien_formado(),
        old(estado).valido() ==> final(estado).valido(),
{
    if let Some(df) = &estado.dataframe {
        if let Ok(q) = quitar_columna(df, columna) {
            estado.dataframe = Some(q);
        }
    }
}

/// What is left of a table when one of its columns is removed: the other columns, with their names,
/// types and cells, each row in its place. Without such a column nothing changes.
pub proof fn lo_que_queda_al_eliminar(t: Tabla, nombre: Seq<char>, i: int, k: int)
    requires
        t.nombres.no_duplicates(),
        t.tipos.len() == t.nombres.len(),
    ensures
        (forall|j: int| 0 <= j < t.nombres.len() ==> #[trigger] t.nombres[j] != nombre)
            ==> sin_columna(t, nombre) == t,
        0 <= i < t.nombres.len() && t.nombres[i] == nombre ==> {
            let q = sin_columna(t, nombre);
            &&& q.nombres == t.nombres.take(i) + t.nombres.skip(i + 1)
            &&& q.tipos == t.tipos.take(i) + t.tipos.skip(i + 1)
            &&& q.filas.len() == t.filas.len()
            &&& 0 <= k < t.filas.len() && t.filas[k].len() == t.nombres.len() ==> q.filas[k]
                == t.filas[k].take(i) + t.filas[k].skip(i + 1)
        },
{
    if 0 <= i < t.nombres.len() && t.nombres[i] == nombre {
        let j = t.nombres.index_of(nombre);
        assert(t.nombres.contains(nombre));
        assert(t.nombres[j] == nombre);
        assert(j == i);
        let q = sin_columna(t, nombre);
        assert(q.nombres =~= t.nombres.take(i) + t.nombres.skip(i + 1));
        assert(q.tipos =~= t.tipos.take(i) + t.tipos.skip(i + 1));
        if 0 <= k < t.filas.len() && t.filas[k].len() == t.nombres.len() {
            assert(q.filas[k] =~= t.filas[k].take(i) + t.filas[k].skip(i + 1));
        }
    }
}

/// A column that was removed is gone, and the others are still there with their types, in order.
pub proof fn eliminada_no_queda(t: Tabla, nombre: Seq<char>)
    requires
        t.nombres.no_duplicates(),
        t.tipos.len() == t.nombres.len(),
        t.nombres.contains(nombre),
    ensures
        !sin_columna(t, nombre).nombres.contains(nombre),
        sin_columna(t, nombre).nombres.len() == t.nombres.len() - 1,
        sin_columna(t, nombre).filas.len() == t.filas.len(),
        forall|k: int|
            0 <= k < t.nombres.len() && k != t.nombres.index_of(nombre) ==> {
                let j = if k < t.nombres.index_of(nombre) {
                    k
                } else {
                    k - 1
                };
                &&& sin_columna(t, nombre).nombres[j] == #[trigger] t.nombres[k]
                &&& sin_columna(t, nombre).tipos[j] == t.tipos[k]
            },
{
    let i = t.nombres.index_of(nombre);
    let q = sin_columna(t, nombre).nombres;
    assert(t.nombres[i] == nombre);
    if q.contains(nombre) {
        let j = choose|j: int| 0 <= j < q.len() && q[j] == nombre;
        let k = if j < i {
            j
        } else {
            j + 1
        };
        assert(t.nombres[k] == nombre);
    }
}

/// To remove a column twice comes to the same as to remove it once.
pub proof fn eliminar_dos_veces(t: Tabla, nombre: Seq<char>)
    requires
        t.nombres.no_duplicates(),
        t.tipos.len() == t.nombres.len(),
    ensures
        sin_columna(sin_columna(t, nombre), nombre) == sin_columna(t, nombre),
{
    if t.nombres.contains(nombre) {
        eliminada_no_queda(t, nombre);
    }
}

/// The old and the new names that `cols` asks for.
pub open spec fn cambios(cols: Seq<(&str, &str, &str)>) -> Seq<(Seq<char>, Seq<char>)> {
    cols.map_values(|c: (&str, &str, &str)| (c.0@, c.1@))
}

/// The table `t` after each of its columns is renamed as `cs` asks, one after the other.
pub open spec fn renombradas(t: Tabla, cs: Seq<(Seq<char>, Seq<char>)>) -> Tabla
    decreases cs.len(),
{
    if cs.len() == 0 {
        t
    } else {
        renombrada(renombradas(t, cs.drop_last()), cs.last().0, cs.last().1)
    }
}

/// Keeps a table whose columns were renamed, if a schema could be built of it, and otherwise says
/// why none could.
pub fn guardar_renombrada(
    obtenido: Result<(Vec<EsquemaColumna>, DataFrame, Vec<String>), String>,
    nuevo_df: DataFrame,
    estado: &mut ContenedorDatos,
) -> (r: Result<String, String>)
    ensures
        match (obtenido, r) {
            (Ok(_), Ok(m)) => {
                &&& m@ == "No funcionó"@
                &&& final(estado).dataframe == Some(nuevo_df)
            },
            (Err(e), Err(m)) => {
                &&& m@ == "Ocurrió un error al obtener el nuevo esquema "@ + e@
                &&& *final(estado) == *old(estado)
            },
            _ => false,
        },
{
    match obtenido {
        Ok(_) => {
            estado.dataframe = Some(nuevo_df);
            Ok("No funcionó".to_owned())
        },
        Err(e) => {
            let inicio = "Ocurrió un error al obtener el nuevo esquema ".to_owned();
            Err(inicio.concat(e.as_str()))
        },
    }
}

/// Renames columns of the table as `cols` asks: the first item of each entry is the old name, the
/// second the new one. A change that the table does not allow is passed over. Where no schema can be
/// built of the result, because it has no columns or because `*` is the name of one of several, the
/// table stays as it was (see [`guardar_renombrada`]).
pub fn transformar_columnas(cols: &Vec<(&str, &str, &str)>, estado: &mut ContenedorDatos) -> (r:
    Result<String, String>)
    requires
        old(estado).bien_formado(),
    ensures
        match old(estado).dataframe {
            None => {
                &&& r matches Err(m)
                &&& m@ == "No se pudo sacar el df del muteguard: Ocurrio un error"@
                &&& final(estado).dataframe is None
            },
            Some(df) => {
                let t = renombradas(tabla(df), cambios(cols@));
                match r {
                    Ok(m) => {
                        &&& m@ == "No funcionó"@
                        &&& t.nombres.len() > 0
                        &&& nombres_simples(t.nombres)
                        &&& final(estado).dataframe matches Some(q)
                        &&& tabla(q) == t
                    },
                    Err(m) => {
                        &&& *final(estado) == *old(estado)
                        &&& if t.nombres.len() == 0 {
                            m@ == "Ocurrió un error al obtener el nuevo esquema "@
                                + "La lista de columnas está vacía"@
                        } else {
                            &&& !nombres_simples(t.nombres)
                            &&& ("Ocurrió un error al obtener el nuevo esquema "@
                                + "Fracasó la búsqueda de nulos "@).is_prefix_of(m@)
                        }
                    },
                }
            },
        },
        final(estado).bien_formado(),
        old(estado).valido() ==> final(estado).valido(),
{
    let mut nuevo_df = match &estado.dataframe {
        Some(df) => copia(df),
        None => {
            return Err("No se pudo sacar el df del muteguard: Ocurrio un error".to_owned());
        },
    };
    let ghost t0 = tabla(nuevo_df);
    let ghost cs = cambios(cols@);
    for i in 0..cols.len()
        invariant
            cs == cambios(cols@),
            t0.nombres_distintos(),
            tabla(nuevo_df) == renombradas(t0, cs.take(i as int)),
    {
        proof {
            renombrar_conserva(t0, cs.take(i as int));
            assert(cs.take(i + 1).drop_last() =~= cs.take(i as int));
        }
        let _ = renombrar(&mut nuevo_df, cols[i].0, cols[i].1);
    }
    proof {
        assert(cs.take(cols@.len() as int) =~= cs);
        renombrar_conserva(t0, cs);
    }
    let obtenido = obtener_esquema_columnas(&nuevo_df);
    proof {
        if obtenido is Err {
            let a = "Ocurrió un error al obtener el nuevo esquema "@;
            let b = "Fracasó la búsqueda de nulos "@;
            let e = obtenido->Err_0@;
            if b.is_prefix_of(e) {
                assert((a + b) =~= (a + e).take((a + b).len() as int));
            }
        }
    }
    guardar_renombrada(obtenido, nuevo_df, estado)
}

/// Renaming columns changes neither how many there are, nor their types, nor the rows, and the
/// names stay different from one another.
pub proof fn renombrar_conserva(t: Tabla, cs: Seq<(Seq<char>, Seq<char>)>)
    requires
        t.nombres.no_duplicates(),
    ensures
        renombradas(t, cs).nombres.len() == t.nombres.len(),
        renombradas(t, cs).nombres.no_duplicates(),
        renombradas(t, cs).tipos == t.tipos,
        renombradas(t, cs).filas == t.filas,
    decreases cs.len(),
{
    if cs.len() > 0 {
        renombrar_conserva(t, cs.drop_last());
    }
}

/// What is asked of a table is, for each entry and in order, to rename the column with the first item
/// of the entry as its second item tells. The third one counts for nothing.
pub proof fn lo_que_pide_cada_entrada(
    cols: Seq<(&str, &str, &str)>,
    otras: Seq<(&str, &str, &str)>,
    k: int,
)
    ensures
        cambios(cols).len() == cols.len(),
        0 <= k < cols.len() ==> cambios(cols)[k].0 == cols[k].0@ && cambios(cols)[k].1
            == cols[k].1@,
        cols.len() == otras.len() && (forall|i: int|
            0 <= i < cols.len() ==> (#[trigger] cols[i]).0@ == otras[i].0@ && cols[i].1@
                == otras[i].1@) ==> cambios(cols) == cambios(otras),
{
    if cols.len() == otras.len() && (forall|i: int|
        0 <= i < cols.len() ==> (#[trigger] cols[i]).0@ == otras[i].0@ && cols[i].1@
            == otras[i].1@) {
        assert forall|i: int| 0 <= i < cols.len() implies #[trigger] cambios(cols)[i]
            == cambios(otras)[i] by {
            assert(cols[i].0@ == otras[i].0@);
        }
        assert(cambios(cols) =~= cambios(otras));
    }
}

/// The entries are taken one after the other: the last one works on what the others made of the
/// table. It gives the column its new name, and leaves the rest as it is, if there is such a column
/// and none with the new name; otherwise it changes nothing.
pub proof fn un_cambio_tras_otro(
    t: Tabla,
    cols: Seq<(&str, &str, &str)>,
    u: Tabla,
    j: int,
)
    requires
        cols.len() > 0,
        u == renombradas(t, cambios(cols.drop_last())),
        u.nombres.no_duplicates(),
    ensures
        ({
            let q = renombradas(t, cambios(cols));
            let de = cols.last().0@;
            let a = cols.last().1@;
            &&& 0 <= j < u.nombres.len() && u.nombres[j] == de && !u.nombres.contains(a)
                ==> q.nombres == u.nombres.update(j, a)
            &&& !u.nombres.contains(de) || u.nombres.contains(a) ==> q.nombres == u.nombres
            &&& q.tipos == u.tipos
            &&& q.filas == u.filas
        }),
        cols.len() == 1 ==> u == t,
{
    let cs = cambios(cols);
    assert(cs.drop_last() =~= cambios(cols.drop_last()));
    assert(cs.last() == (cols.last().0@, cols.last().1@));
    if 0 <= j < u.nombres.len() && u.nombres[j] == cols.last().0@ {
        let i = u.nombres.index_of(u.nombres[j]);
        assert(u.nombres.contains(u.nombres[j]));
        assert(u.nombres[i] == u.nombres[j]);
        assert(i == j);
    }
}

/// To rename a column and then to give it its old name back changes nothing.
pub proof fn renombrar_de_vuelta(t: Tabla, de: Seq<char>, a: Seq<char>)
    requires
        t.nombres.no_duplicates(),
        t.nombres.contains(de),
        !t.nombres.contains(a),
    ensures
        renombrada(renombrada(t, de, a), a, de) == t,
{
    let i = t.nombres.index_of(de);
    let u = renombrada(t, de, a);
    assert(u.nombres[i] == a);
    assert(u.nombres.contains(a));
    let j = u.nombres.index_of(a);
    assert(j == i) by {
        if j != i {
            assert(t.nombres[j] == a);
        }
    }
    assert(!u.nombres.contains(de)) by {
        if u.nombres.contains(de) {
            let k = choose|k: int| 0 <= k < u.nombres.len() && u.nombres[k] == de;
            if k != i {
                assert(t.nombres[k] == de && t.nombres[i] == de);
            }
        }
    }
    assert(u.nombres.update(i, de) =~= t.nombres);
}

}
