//! The schema of a table: what is found of each of its columns.
use crate::cadena::{errores, sugerido, validar_cadena};
use crate::tabla::{
    ambas, condicion, es_entero, es_fecha, es_flotante, es_nula, filtrar, mensaje_polars, negada,
    nombres_de, tabla, Condicion, Fila, Tabla, TipoDato,
};
use crate::texto::vistas;
use polars::prelude::{DataFrame, Expr, PolarsError};
use vstd::prelude::*;

verus! {

/// What is found of a column: its name, the name suggested in its place, the kind of its values,
/// whether the two names are the same, and what is wrong with the first.
#[derive(Debug)]
pub struct EsquemaColumna {
    pub nombre: String,
    pub nombre_sugerido: String,
    pub tipo: String,
    pub incidencia: bool,
    pub errores: Vec<String>,
}

/// The kind of values that a column of the type `t` has.
pub open spec fn clase(t: TipoDato) -> Seq<char> {
    match t {
        TipoDato::Fecha => "Temporal"@,
        TipoDato::Flotante => "Numérica"@,
        TipoDato::Entero => "Numérica"@,
        TipoDato::Otro => "Texto"@,
    }
}

impl EsquemaColumna {
    /// Whether this is what is found of a column with this name and this type.
    pub open spec fn describe(self, nombre: Seq<char>, t: TipoDato) -> bool {
        &&& self.nombre@ == nombre
        &&& self.nombre_sugerido@ == sugerido(nombre)
        &&& self.tipo@ == clase(t)
        &&& self.incidencia == (sugerido(nombre) == nombre)
        &&& vistas(self.errores@) == errores(nombre)
        &&& self.incidencia == (self.errores@.len() == 0)
    }
}

/// Describes a column with this name and this type.
pub fn describir_columna(nombre: &str, t: TipoDato) -> (r: EsquemaColumna)
    ensures
        r.describe(nombre@, t),
{
    let propiedades = validar_cadena(nombre);
    let tipo = match t {
        TipoDato::Fecha => "Temporal",
        TipoDato::Flotante => "Numérica",
        TipoDato::Entero => "Numérica",
        TipoDato::Otro => "Texto",
    };
    EsquemaColumna {
        nombre: nombre.to_owned(),
        nombre_sugerido: propiedades.sugerido,
        tipo: tipo.to_owned(),
        incidencia: propiedades.incidencia,
        errores: propiedades.errores,
    }
}

/// The type that a schema takes the column `nombre` of `df` for.
fn tipo_de_columna(df: &DataFrame, nombre: &str) -> (r: TipoDato)
    requires
        tabla(*df).nombres_distintos(),
        tabla(*df).nombres.contains(nombre@),
    ensures
        r == tabla(*df).tipos[tabla(*df).nombres.index_of(nombre@)].dato(),
{
    if es_fecha(df, nombre) {
        TipoDato::Fecha
    } else if es_flotante(df, nombre) {
        TipoDato::Flotante
    } else if es_entero(df, nombre) {
        TipoDato::Entero
    } else {
        TipoDato::Otro
    }
}

/// Whether no cell of the row has a value.
pub open spec fn fila_vacia(f: Fila) -> bool {
    forall|k: int| 0 <= k < f.len() ==> #[trigger] f[k] is None
}

/// `t` without the rows in which no cell has a value.
pub open spec fn sin_filas_vacias(t: Tabla) -> Tabla {
    Tabla {
        nombres: t.nombres,
        tipos: t.tipos,
        filas: t.filas.filter(|f: Fila| !fila_vacia(f)),
    }
}

/// Whether each name means its column in an expression. The name `*` does so only where no other
/// column is.
pub open spec fn nombres_simples(nombres: Seq<Seq<char>>) -> bool {
    nombres.len() == 1 || !nombres.contains("*"@)
}

/// Whether `esquema` describes the columns of `t`, in order.
pub open spec fn esquema_de(esquema: Seq<EsquemaColumna>, t: Tabla) -> bool {
    &&& esquema.len() == t.nombres.len()
    &&& forall|k: int|
        0 <= k < esquema.len() ==> (#[trigger] esquema[k]).describe(
            t.nombres[k],
            t.tipos[k].dato(),
        )
}

/// What is kept of a table has no more rows than the table.
pub proof fn depurar_no_agrega(t: Tabla)
    ensures
        sin_filas_vacias(t).filas.len() <= t.filas.len(),
{
    broadcast use vstd::seq_lib::group_filter_ensures;

}

proof fn lema_filtros_iguales(filas: Seq<Fila>, p: spec_fn(Fila) -> bool, q: spec_fn(Fila) -> bool)
    requires
        forall|i: int| 0 <= i < filas.len() ==> p(#[trigger] filas[i]) == q(filas[i]),
    ensures
        filas.filter(p) == filas.filter(q),
    decreases filas.len(),
{
    reveal(Seq::filter);
    if filas.len() > 0 {
        let resto = filas.drop_last();
        assert forall|i: int| 0 <= i < resto.len() implies p(#[trigger] resto[i]) == q(resto[i]) by {
            assert(p(filas[i]) == q(filas[i]));
        }
        lema_filtros_iguales(resto, p, q);
        assert(p(filas[filas.len() - 1]) == q(filas[filas.len() - 1]));
    }
}

/// No row that is kept is empty, and to take the empty rows away once more changes nothing.
pub proof fn depurar_dos_veces(t: Tabla)
    ensures
        forall|i: int|
            0 <= i < sin_filas_vacias(t).filas.len() ==> !fila_vacia(
                #[trigger] sin_filas_vacias(t).filas[i],
            ),
        sin_filas_vacias(sin_filas_vacias(t)) == sin_filas_vacias(t),
{
    let p = |f: Fila| !fila_vacia(f);
    let q = sin_filas_vacias(t).filas;
    assert forall|i: int| 0 <= i < q.len() implies !fila_vacia(#[trigger] q[i]) by {
        t.filas.lemma_filter_pred(p, i);
    }
    lema_filtro_de_todas(q);
}

/// A schema and a table that are obtained once more, from the table that was obtained, are the same.
pub proof fn segunda_pasada_igual(
    t: Tabla,
    e1: Seq<EsquemaColumna>,
    q1: Tabla,
    e2: Seq<EsquemaColumna>,
    q2: Tabla,
)
    requires
        q1 == sin_filas_vacias(t),
        esquema_de(e1, t),
        q2 == sin_filas_vacias(q1),
        esquema_de(e2, q1),
    ensures
        q2 == q1,
        e2.len() == e1.len(),
        forall|k: int|
            0 <= k < e1.len() ==> {
                &&& (#[trigger] e2[k]).nombre@ == e1[k].nombre@
                &&& e2[k].nombre_sugerido@ == e1[k].nombre_sugerido@
                &&& e2[k].tipo@ == e1[k].tipo@
                &&& e2[k].incidencia == e1[k].incidencia
                &&& vistas(e2[k].errores@) == vistas(e1[k].errores@)
            },
{
    depurar_dos_veces(t);
    assert forall|k: int| 0 <= k < e1.len() implies (#[trigger] e2[k]).describe(
        t.nombres[k],
        t.tipos[k].dato(),
    ) && e1[k].describe(t.nombres[k], t.tipos[k].dato()) by {}
}

proof fn lema_filtro_de_todas(filas: Seq<Fila>)
    requires
        forall|i: int| 0 <= i < filas.len() ==> !fila_vacia(#[trigger] filas[i]),
    ensures
        filas.filter(|f: Fila| !fila_vacia(f)) == filas,
    decreases filas.len(),
{
    reveal(Seq::filter);
    if filas.len() > 0 {
        lema_filtro_de_todas(filas.drop_last());
        assert(!fila_vacia(filas[filas.len() - 1]));
        assert(filas =~= filas.drop_last().push(filas.last()));
    }
}

/// Whether `e` states that the first `n` columns have no value. Where the name `*` does not mean its
/// column, it is only known that `e` holds it.
spec fn primeras_nulas(e: Expr, nombres: Seq<Seq<char>>, n: int) -> bool {
    &&& condicion(e) matches Some(c)
    &&& c.con_comodin() <==> nombres.take(n).contains("*"@)
    &&& nombres_simples(nombres) ==> {
        &&& c.sobre(nombres)
        &&& forall|f: Fila| #[trigger]
            c.se_cumple(nombres, f) <==> (forall|k: int| 0 <= k < n ==> f[k] is None)
    }
}

proof fn lema_otra_nula(e: Expr, otra: Expr, junta: Expr, nombres: Seq<Seq<char>>, i: int)
    requires
        nombres.no_duplicates(),
        1 <= i < nombres.len(),
        primeras_nulas(e, nombres, i),
        condicion(otra) == Some(
            if nombres[i] == "*"@ {
                Condicion::Comodin
            } else {
                Condicion::Nula(nombres[i])
            },
        ),
        condicion(junta) == Some(
            Condicion::Ambas(Box::new(condicion(e)->0), Box::new(condicion(otra)->0)),
        ),
    ensures
        primeras_nulas(junta, nombres, i + 1),
{
    let c = condicion(junta)->0;
    lema_posicion(nombres, i);
    assert(nombres.take(i + 1) =~= nombres.take(i).push(nombres[i]));
    assert(nombres.take(i + 1).contains("*"@) <==> nombres.take(i).contains("*"@) || nombres[i]
        == "*"@) by {
        let v = nombres.take(i);
        assert(v.push(nombres[i])[i] == nombres[i]);
        if v.contains("*"@) {
            let k = choose|k: int| 0 <= k < v.len() && v[k] == "*"@;
            assert(v.push(nombres[i])[k] == "*"@);
        }
    }
    reveal_with_fuel(Condicion::con_comodin, 3);
    if nombres_simples(nombres) {
        reveal_with_fuel(Condicion::sobre, 3);
        assert forall|f: Fila| #[trigger]
            c.se_cumple(nombres, f) <==> (forall|k: int| 0 <= k < i + 1 ==> f[k] is None) by {
            reveal_with_fuel(Condicion::se_cumple, 3);
            assert(condicion(e)->0.se_cumple(nombres, f) <==> (forall|k: int|
                0 <= k < i ==> f[k] is None));
        }
    }
}

/// The expression that holds of the rows in which some column has a value.
fn alguna_con_valor(nombres: &Vec<String>) -> (r: Expr)
    requires
        nombres@.len() > 0,
        vistas(nombres@).no_duplicates(),
    ensures
        condicion(r) matches Some(c) && {
            &&& c.con_comodin() <==> vistas(nombres@).contains("*"@)
            &&& nombres_simples(vistas(nombres@)) ==> {
                &&& c.sobre(vistas(nombres@))
                &&& forall|f: Fila|
                    f.len() == nombres@.len() ==> (#[trigger] c.se_cumple(vistas(nombres@), f)
                        <==> !fila_vacia(f))
            }
        },
{
    let ghost vs = vistas(nombres@);
    let mut e = es_nula(nombres[0].as_str());
    proof {
        lema_posicion(vs, 0);
        assert(vs.take(1) =~= seq![vs[0]]);
        assert(vs.take(1)[0] == vs[0]);
        assert(primeras_nulas(e, vs, 1));
    }
    let mut i: usize = 1;
    while i < nombres.len()
        invariant
            1 <= i <= nombres@.len(),
            vs == vistas(nombres@),
            vs.no_duplicates(),
            primeras_nulas(e, vs, i as int),
        decreases nombres@.len() - i,
    {
        let otra = es_nula(nombres[i].as_str());
        let ghost antes = e;
        let ghost esta = otra;
        e = ambas(e, otra);
        proof {
            lema_otra_nula(antes, esta, e, vs, i as int);
        }
        i = i + 1;
    }
    let r = negada(e);
    proof {
        assert(vs.take(vs.len() as int) =~= vs);
        reveal_with_fuel(Condicion::con_comodin, 2);
        if nombres_simples(vs) {
            reveal_with_fuel(Condicion::sobre, 2);
            assert forall|f: Fila| f.len() == nombres@.len() implies (#[trigger] condicion(
                r,
            )->0.se_cumple(vs, f) <==> !fila_vacia(f)) by {
                reveal_with_fuel(Condicion::se_cumple, 2);
                assert(condicion(e)->0.se_cumple(vs, f) <==> (forall|k: int|
                    0 <= k < vs.len() ==> f[k] is None));
            }
        }
    }
    r
}

proof fn lema_posicion(nombres: Seq<Seq<char>>, k: int)
    requires
        nombres.no_duplicates(),
        0 <= k < nombres.len(),
    ensures
        nombres.contains(nombres[k]),
        nombres.index_of(nombres[k]) == k,
{
    let j = nombres.index_of(nombres[k]);
    assert(nombres.contains(nombres[k]));
    assert(0 <= j < nombres.len() && nombres[j] == nombres[k]);
}

/// Describes the columns of a table that was filtered, or says why there is none.
///
/// Returns the schema with the table and with the names of its columns.
pub fn describir_filtrada(filtrada: Result<DataFrame, PolarsError>) -> (r: Result<
    (Vec<EsquemaColumna>, DataFrame, Vec<String>),
    String,
>)
    requires
        filtrada matches Ok(q) ==> tabla(q).nombres_distintos(),
    ensures
        match (filtrada, r) {
            (Ok(q), Ok((esquema, p, nombres))) => {
                &&& p == q
                &&& vistas(nombres@) == tabla(q).nombres
                &&& esquema_de(esquema@, tabla(q))
            },
            (Err(_), Err(m)) => "Fracasó la búsqueda de nulos "@.is_prefix_of(m@),
            _ => false,
        },
{
    let q = match filtrada {
        Ok(q) => q,
        Err(error) => {
            let inicio = "Fracasó la búsqueda de nulos ".to_owned();
            return Err(inicio.concat(mensaje_polars(&error).as_str()));
        },
    };
    let nombres = nombres_de(&q);
    let ghost t = tabla(q);
    let mut esquema: Vec<EsquemaColumna> = Vec::new();
    for i in 0..nombres.len()
        invariant
            t == tabla(q),
            vistas(nombres@) == t.nombres,
            t.nombres.no_duplicates(),
            esquema@.len() == i,
            forall|k: int|
                0 <= k < i ==> (#[trigger] esquema@[k]).describe(
                    t.nombres[k],
                    t.tipos[k].dato(),
                ),
    {
        proof {
            lema_posicion(t.nombres, i as int);
            assert(nombres@[i as int]@ == t.nombres[i as int]);
        }
        let tipo = tipo_de_columna(&q, nombres[i].as_str());
        esquema.push(describir_columna(nombres[i].as_str(), tipo));
    }
    Ok((esquema, q, nombres))
}

/// Builds the schema of the columns of `df`.
///
/// Returns it with the table without its empty rows and with the names of the columns. It succeeds
/// exactly on the tables that have columns, and whose names mean them in an expression.
pub fn obtener_esquema_columnas(df: &DataFrame) -> (r: Result<
    (Vec<EsquemaColumna>, DataFrame, Vec<String>),
    String,
>)
    requires
        tabla(*df).bien_formada(),
    ensures
        match r {
            Ok((esquema, q, nombres)) => {
                &&& tabla(*df).nombres.len() > 0
                &&& nombres_simples(tabla(*df).nombres)
                &&& vistas(nombres@) == tabla(*df).nombres
                &&& tabla(q) == sin_filas_vacias(tabla(*df))
                &&& esquema_de(esquema@, tabla(*df))
            },
            Err(m) => {
                if tabla(*df).nombres.len() == 0 {
                    m@ == "La lista de columnas está vacía"@
                } else {
                    &&& !nombres_simples(tabla(*df).nombres)
                    &&& "Fracasó la búsqueda de nulos "@.is_prefix_of(m@)
                }
            },
        },
{
    let nombres = nombres_de(df);
    if nombres.len() == 0 {
        return Err("La lista de columnas está vacía".to_owned());
    }
    let e = alguna_con_valor(&nombres);
    proof {
        let t = tabla(*df);
        let c = condicion(e)->0;
        if nombres_simples(t.nombres) {
            assert forall|i: int| 0 <= i < t.filas.len() implies c.se_cumple(
                t.nombres,
                #[trigger] t.filas[i],
            ) == !fila_vacia(t.filas[i]) by {
                assert(t.filas[i].len() == nombres@.len());
            }
            lema_filtros_iguales(
                t.filas,
                |f: Fila| c.se_cumple(t.nombres, f),
                |f: Fila| !fila_vacia(f),
            );
        }
    }
    describir_filtrada(filtrar(df, e))
}

/// A row is kept exactly when some cell of it, in whatever column, has a value. The columns stay.
pub proof fn se_conserva_lo_que_tiene_valor(t: Tabla, q: Tabla)
    requires
        q == sin_filas_vacias(t),
    ensures
        q.nombres == t.nombres,
        q.tipos == t.tipos,
        forall|i: int, k: int|
            0 <= i < t.filas.len() && 0 <= k < t.filas[i].len() && (#[trigger] t.filas[i][k]) is Some
                ==> q.filas.contains(t.filas[i]),
        forall|j: int| 0 <= j < q.filas.len() ==> t.filas.contains(#[trigger] q.filas[j]),
        forall|j: int|
            0 <= j < q.filas.len() ==> (#[trigger] q.filas[j]).len() > 0 && exists|k: int|
                0 <= k < q.filas[j].len() && #[trigger] q.filas[j][k] is Some,
{
    let p = |f: Fila| !fila_vacia(f);
    assert forall|i: int, k: int|
        0 <= i < t.filas.len() && 0 <= k < t.filas[i].len() && (
        #[trigger] t.filas[i][k]) is Some implies q.filas.contains(t.filas[i]) by {
        assert(!fila_vacia(t.filas[i]));
        t.filas.lemma_filter_contains(p, i);
    }
    assert forall|j: int| 0 <= j < q.filas.len() implies t.filas.contains(
        #[trigger] q.filas[j],
    ) by {
        t.filas.lemma_filter_contains_rev(p, q.filas[j]);
    }
    assert forall|j: int| 0 <= j < q.filas.len() implies (#[trigger] q.filas[j]).len() > 0 && exists|
        k: int,
    |
        0 <= k < q.filas[j].len() && #[trigger] q.filas[j][k] is Some by {
        t.filas.lemma_filter_pred(p, j);
        let f = q.filas[j];
        let k = choose|k: int| 0 <= k < f.len() && !(#[trigger] f[k] is None);
        assert(f[k] is Some);
    }
}

/// Rows are kept one by one, in order and as many times as they occur: what is kept of rows in a row
/// is what is kept of each part, and of a single row it is the row if some cell of it has a value, and
/// nothing if none has.
pub proof fn se_conserva_fila_por_fila(t: Tabla, u: Tabla, v: Tabla, f: Fila)
    requires
        v.filas == t.filas + u.filas,
    ensures
        sin_filas_vacias(v).filas == sin_filas_vacias(t).filas + sin_filas_vacias(u).filas,
        u.filas == seq![f] && (exists|k: int| 0 <= k < f.len() && #[trigger] f[k] is Some)
            ==> sin_filas_vacias(u).filas == seq![f],
        u.filas == seq![f] && (forall|k: int| 0 <= k < f.len() ==> #[trigger] f[k] is None)
            ==> sin_filas_vacias(u).filas.len() == 0,
{
    Seq::filter_distributes_over_add(t.filas, u.filas, |f: Fila| !fila_vacia(f));
    if u.filas == seq![f] {
        reveal_with_fuel(Seq::filter, 2);
        assert(u.filas.drop_last() =~= Seq::empty());
        assert(sin_filas_vacias(u).filas =~= if fila_vacia(f) {
            Seq::empty()
        } else {
            seq![f]
        });
    }
}

/// A schema has an entry for each column, in order, with the name of the column, the name suggested in
/// its place, and its kind: dates are temporal, numbers are numeric, and all else is text.
pub proof fn entradas_de_un_esquema(esquema: Seq<EsquemaColumna>, t: Tabla, k: int)
    requires
        esquema_de(esquema, t),
        0 <= k < t.nombres.len(),
    ensures
        esquema.len() == t.nombres.len(),
        esquema[k].nombre@ == t.nombres[k],
        esquema[k].nombre_sugerido@ == sugerido(t.nombres[k]),
        esquema[k].incidencia <==> esquema[k].nombre_sugerido@ == t.nombres[k],
        vistas(esquema[k].errores@) == errores(t.nombres[k]),
        t.tipos[k] is Fecha ==> esquema[k].tipo@ == "Temporal"@,
        t.tipos[k] is Flotante || t.tipos[k] is Entero ==> esquema[k].tipo@ == "Numérica"@,
        t.tipos[k] is Logico || t.tipos[k] is Texto || t.tipos[k] is Otro ==> esquema[k].tipo@
            == "Texto"@,
{
    assert(esquema[k].describe(t.nombres[k], t.tipos[k].dato()));
}

/// Every table can be filtered but those with a column named `*` and some other column.
pub proof fn tablas_que_se_filtran(nombres: Seq<Seq<char>>)
    ensures
        nombres.len() == 1 ==> nombres_simples(nombres),
        (forall|k: int| 0 <= k < nombres.len() ==> #[trigger] nombres[k] != "*"@)
            ==> nombres_simples(nombres),
        nombres.len() > 1 && (exists|k: int| 0 <= k < nombres.len() && #[trigger] nombres[k] == "*"@)
            ==> !nombres_simples(nombres),
{
}

}
