//! Validation of the names of files and columns.
use crate::texto::{
    partes, partes_sin_separador, partir, partir_deshace_unir, reemplazado, reemplazar, unido, unir,
    unir_deshace_partir, vistas,
};
use crate::unicode::{
    descomponer, descomposicion, es_alfanumerico, es_ascii, es_blanco, minuscula_ascii, minusculas,
    reemplazar_clase, sin_especiales,
};
use vstd::prelude::*;

verus! {

/// A name, the name that is suggested in its place, whether the two are the same, and what is
/// wrong with the first.
#[derive(Debug)]
pub struct ValidacionCadena {
    pub cadena: String,
    pub sugerido: String,
    pub incidencia: bool,
    pub errores: Vec<String>,
}

/// `s` without the white space at its start.
pub open spec fn sin_blancos_iniciales(s: Seq<char>) -> Seq<char>
    decreases s.len(),
{
    if s.len() > 0 && es_blanco(s[0]) {
        sin_blancos_iniciales(s.drop_first())
    } else {
        s
    }
}

/// `s` without the white space at its end.
pub open spec fn sin_blancos_finales(s: Seq<char>) -> Seq<char>
    decreases s.len(),
{
    if s.len() > 0 && es_blanco(s.last()) {
        sin_blancos_finales(s.drop_last())
    } else {
        s
    }
}

/// `s` without the white space around it.
pub open spec fn recortada(s: Seq<char>) -> Seq<char> {
    sin_blancos_finales(sin_blancos_iniciales(s))
}

/// Takes the white space around `s` away.
pub fn recortar(s: &str) -> (r: String)
    ensures
        r@ == recortada(s@),
{
    let cs = crate::texto::caracteres(s);
    let mut i: usize = 0;
    assert(s@.skip(0) =~= s@);
    while i < cs.len() && cs[i].is_whitespace()
        invariant
            i <= cs@.len(),
            cs@ == s@,
            sin_blancos_iniciales(s@.skip(i as int)) == sin_blancos_iniciales(s@),
        decreases cs@.len() - i,
    {
        assert(s@.skip(i as int).drop_first() =~= s@.skip(i + 1));
        i = i + 1;
    }
    let ghost inicio = s@.skip(i as int);
    assert(inicio == sin_blancos_iniciales(s@));
    let mut j: usize = cs.len();
    assert(s@.subrange(i as int, j as int) =~= inicio);
    while i < j && cs[j - 1].is_whitespace()
        invariant
            i <= j <= cs@.len(),
            cs@ == s@,
            sin_blancos_finales(s@.subrange(i as int, j as int)) == sin_blancos_finales(inicio),
        decreases j,
    {
        assert(s@.subrange(i as int, j as int).drop_last() =~= s@.subrange(i as int, j - 1));
        j = j - 1;
    }
    let mut r = String::new();
    let ghost dentro = s@.subrange(i as int, j as int);
    for k in i..j
        invariant
            i <= j <= cs@.len(),
            cs@ == s@,
            dentro == s@.subrange(i as int, j as int),
            r@ == dentro.take(k - i),
    {
        r.push(cs[k]);
        assert(r@ =~= dentro.take(k + 1 - i));
    }
    assert(dentro.take(j - i) =~= dentro);
    r
}

/// The combining marks that the decomposition of an accented letter leaves behind it.
pub open spec fn es_marca(c: char) -> bool {
    '\u{300}' <= c <= '\u{36f}'
}

/// `s` without combining marks.
pub open spec fn sin_marcas(s: Seq<char>) -> Seq<char> {
    s.filter(|c: char| !es_marca(c))
}

/// Takes the combining marks out of `s`.
pub fn quitar_marcas(s: &str) -> (r: String)
    ensures
        r@ == sin_marcas(s@),
{
    let mut r = String::new();
    for c in it: s.chars()
        invariant
            it.seq() == s@,
            r@ == sin_marcas(s@.take(it.index() as int)),
    {
        proof {
            let n = it.index() as int;
            reveal(Seq::filter);
            assert(s@.take(n + 1).drop_last() =~= s@.take(n));
        }
        if !('\u{300}' <= c && c <= '\u{36f}') {
            r.push(c);
        }
    }
    assert(s@.take(s@.len() as int) =~= s@);
    r
}

/// The articles, prepositions and conjunctions that a name leaves out.
pub open spec fn prohibidas() -> Seq<Seq<char>> {
    seq![
        "el"@, "la"@, "los"@, "las"@, "un"@, "una"@, "unos"@, "unas"@, "a"@, "que"@, "ante"@,
        "bajo"@, "cabe"@, "con"@, "contra"@, "de"@, "del"@, "durante"@, "en"@, "entre"@,
        "mediante"@, "para"@, "segun"@, "por"@, "sin"@, "so"@, "sobre"@, "tras"@, "versus"@, "y"@,
        "o"@, "e"@, "u"@,
    ]
}

/// Tells whether a name leaves the word `p` out.
pub fn es_prohibida(p: &str) -> (r: bool)
    ensures
        r == prohibidas().contains(p@),
{
    let lista: [&str; 33] = [
        "el", "la", "los", "las", "un", "una", "unos", "unas", "a", "que", "ante", "bajo", "cabe",
        "con", "contra", "de", "del", "durante", "en", "entre", "mediante", "para", "segun", "por",
        "sin", "so", "sobre", "tras", "versus", "y", "o", "e", "u",
    ];
    let mut i: usize = 0;
    assert(lista@.map_values(|w: &str| w@) =~= prohibidas());
    while i < 33
        invariant
            i <= 33,
            lista@.len() == 33,
            lista@.map_values(|w: &str| w@) == prohibidas(),
            forall|j: int| 0 <= j < i ==> prohibidas()[j] != p@,
        decreases 33 - i,
    {
        assert(prohibidas()[i as int] == lista@[i as int]@);
        if str::eq(p, lista[i]) {
            return true;
        }
        i = i + 1;
    }
    false
}

/// The words of `s`, whose separator is the underscore, that a name keeps.
pub open spec fn palabras(s: Seq<char>) -> Seq<Seq<char>> {
    partes(s, '_').filter(|p: Seq<char>| p.len() > 0 && !prohibidas().contains(p))
}

/// `s` without empty words and without the words that a name leaves out.
pub open spec fn sin_articulos(s: Seq<char>) -> Seq<char> {
    unido(palabras(s), '_')
}

/// Takes out of `s` the empty words and the words that a name leaves out.
pub fn quitar_articulos(s: &str) -> (r: String)
    ensures
        r@ == sin_articulos(s@),
{
    let todas = partir(s, '_');
    let mut quedan: Vec<String> = Vec::new();
    let ghost p = |p: Seq<char>| p.len() > 0 && !prohibidas().contains(p);
    let ghost vs = vistas(todas@);
    assert(vistas(quedan@) =~= vs.take(0).filter(p)) by {
        reveal(Seq::filter);
    }
    for i in 0..todas.len()
        invariant
            p == (|p: Seq<char>| p.len() > 0 && !prohibidas().contains(p)),
            vs == vistas(todas@),
            vistas(quedan@) == vs.take(i as int).filter(p),
    {
        let ghost antes = vistas(quedan@);
        proof {
            reveal(Seq::filter);
            assert(vs.take(i + 1).drop_last() =~= vs.take(i as int));
        }
        if !todas[i].as_str().is_empty() && !es_prohibida(todas[i].as_str()) {
            quedan.push(todas[i].clone());
            assert(vistas(quedan@) =~= antes.push(vs[i as int]));
        }
    }
    assert(vs.take(todas@.len() as int) =~= vs);
    unir(&quedan, '_')
}

/// A list with `texto` in it if `hay`, else an empty one.
pub open spec fn aviso(hay: bool, texto: Seq<char>) -> Seq<Seq<char>> {
    if hay {
        seq![texto]
    } else {
        seq![]
    }
}

/// What is wrong with a text that is `sin_bordes` without the white space around it, apart from that
/// white space, given what it becomes in lower case (`en_minusculas`), then with `ni` in place of
/// every `ñ` and decomposed (`descompuesta`). One message stands for each step that changes the
/// text, in the order of the steps.
pub open spec fn errores_internos(
    sin_bordes: Seq<char>,
    en_minusculas: Seq<char>,
    descompuesta: Seq<char>,
) -> Seq<Seq<char>> {
    let sin_enie = reemplazado(en_minusculas, 'ñ', "ni"@);
    let sin_acentos = sin_marcas(descompuesta);
    let sin_espacios = reemplazado(sin_acentos, ' ', "_"@);
    let articulos = sin_articulos(sin_espacios);
    aviso(sin_bordes != en_minusculas, "Incluye mayúsculas"@) + aviso(sin_enie != en_minusculas, "Incluye la letra ñ"@) + aviso(
        sin_acentos != sin_enie,
        "Incluye acentos"@,
    ) + aviso(sin_espacios != sin_acentos, "Incluye espacios"@) + aviso(
        articulos != sin_espacios,
        "Incluye artículos o preposiciones"@,
    ) + aviso(articulos != sin_especiales(articulos), "Incluye otros carácteres especiales"@)
}

/// What is wrong with `cadena`, given what it becomes without the white space around it
/// (`sin_bordes`), then in lower case (`en_minusculas`), then with `ni` in place of every `ñ` and
/// decomposed (`descompuesta`).
pub open spec fn errores_de(
    cadena: Seq<char>,
    sin_bordes: Seq<char>,
    en_minusculas: Seq<char>,
    descompuesta: Seq<char>,
) -> Seq<Seq<char>> {
    aviso(sin_bordes != cadena, "Incluye espacios vacíos al inicio o al final"@)
        + errores_internos(sin_bordes, en_minusculas, descompuesta)
}

/// The name suggested for a text whose decomposition, in lower case, is `descompuesta`.
pub open spec fn sugerido_de(descompuesta: Seq<char>) -> Seq<char> {
    sin_especiales(sin_articulos(reemplazado(sin_marcas(descompuesta), ' ', "_"@)))
}

/// `cadena` without the white space around it and in lower case.
pub open spec fn en_minusculas(cadena: Seq<char>) -> Seq<char> {
    minusculas(recortada(cadena))
}

/// The decomposition of `cadena` without the white space around it, in lower case and with `ni` in
/// place of every `ñ`.
pub open spec fn descompuesta(cadena: Seq<char>) -> Seq<char> {
    descomposicion(reemplazado(en_minusculas(cadena), 'ñ', "ni"@))
}

/// The name suggested in place of `cadena`.
pub open spec fn sugerido(cadena: Seq<char>) -> Seq<char> {
    sugerido_de(descompuesta(cadena))
}

/// What is wrong with `cadena`.
pub open spec fn errores(cadena: Seq<char>) -> Seq<Seq<char>> {
    errores_de(cadena, recortada(cadena), en_minusculas(cadena), descompuesta(cadena))
}

impl ValidacionCadena {
    /// Whether this is the validation of `cadena`, given what the text becomes on the way (see
    /// [`errores_de`]).
    pub open spec fn resulta_de(
        self,
        cadena: Seq<char>,
        sin_bordes: Seq<char>,
        en_minusculas: Seq<char>,
        descompuesta: Seq<char>,
    ) -> bool {
        &&& self.cadena@ == cadena
        &&& self.sugerido@ == sugerido_de(descompuesta)
        &&& self.incidencia == (self.sugerido@ == cadena)
        &&& vistas(self.errores@) == errores_de(cadena, sin_bordes, en_minusculas, descompuesta)
    }

    /// Whether this is the validation of `cadena`.
    pub open spec fn valida(self, cadena: Seq<char>) -> bool {
        &&& self.cadena@ == cadena
        &&& self.sugerido@ == sugerido(cadena)
        &&& self.incidencia == (sugerido(cadena) == cadena)
        &&& vistas(self.errores@) == errores(cadena)
    }

    /// Whether this is the validation of `cadena`, with what follows of it: the suggestion is a name
    /// of letters, digits and underscores, it is the text itself exactly when nothing is wrong with
    /// it, that is, when the text is empty or a clean name, and of a text in ASCII every step is
    /// known.
    pub open spec fn validada(self, cadena: Seq<char>) -> bool {
        &&& self.valida(cadena)
        &&& self.incidencia == (self.errores@.len() == 0)
        &&& self.incidencia == (cadena.len() == 0 || nombre_limpio(cadena))
        &&& de_nombre(self.sugerido@)
        &&& es_ascii(cadena) ==> {
            let sin_bordes = recortada(cadena);
            let en_minusculas = sin_bordes.map_values(|c: char| minuscula_ascii(c));
            self.resulta_de(cadena, sin_bordes, en_minusculas, en_minusculas)
        }
    }
}

/// Appends `texto` to `errores` if `hay`.
fn avisar(errores: &mut Vec<String>, hay: bool, texto: &str)
    ensures
        vistas(final(errores)@) == vistas(old(errores)@) + aviso(hay, texto@),
{
    let ghost antes = vistas(errores@);
    if hay {
        errores.push(texto.to_owned());
        assert(vistas(errores@) =~= antes + aviso(hay, texto@));
    } else {
        assert(antes =~= antes + aviso(hay, texto@));
    }
}

/// The validation of `cadena`, given what it becomes without the white space around it
/// (`sin_bordes`), then in lower case (`en_minusculas`), then with `ni` in place of every `ñ` and
/// decomposed (`descompuesta`).
pub fn componer_validacion(
    cadena: &str,
    sin_bordes: &str,
    en_minusculas: &str,
    descompuesta: &str,
) -> (r: ValidacionCadena)
    ensures
        r.resulta_de(cadena@, sin_bordes@, en_minusculas@, descompuesta@),
{
    let mut errores: Vec<String> = Vec::new();
    assert(vistas(errores@) =~= Seq::empty());
    avisar(
        &mut errores,
        !str::eq(sin_bordes, cadena),
        "Incluye espacios vacíos al inicio o al final",
    );
    avisar(&mut errores, !str::eq(sin_bordes, en_minusculas), "Incluye mayúsculas");
    let sin_enie = reemplazar(en_minusculas, 'ñ', "ni");
    avisar(&mut errores, !str::eq(sin_enie.as_str(), en_minusculas), "Incluye la letra ñ");
    let sin_acentos = quitar_marcas(descompuesta);
    avisar(&mut errores, sin_acentos != sin_enie, "Incluye acentos");
    let sin_espacios = reemplazar(sin_acentos.as_str(), ' ', "_");
    avisar(&mut errores, sin_espacios != sin_acentos, "Incluye espacios");
    let articulos = quitar_articulos(sin_espacios.as_str());
    avisar(&mut errores, articulos != sin_espacios, "Incluye artículos o preposiciones");
    let sugerido = reemplazar_clase("[^a-z0-9]", articulos.as_str(), "_");
    avisar(&mut errores, articulos != sugerido, "Incluye otros carácteres especiales");
    let incidencia = str::eq(sugerido.as_str(), cadena);
    proof {
        assert(vistas(errores@) =~= errores_de(
            cadena@,
            sin_bordes@,
            en_minusculas@,
            descompuesta@,
        ));
    }
    ValidacionCadena { cadena: cadena.to_owned(), sugerido, incidencia, errores }
}

/// Whether `s` is made of the characters that a suggested name is made of.
pub open spec fn de_nombre(s: Seq<char>) -> bool {
    forall|i: int| 0 <= i < s.len() ==> es_alfanumerico(#[trigger] s[i]) || s[i] == '_'
}

/// Whether `s` is a name with nothing wrong in it: it is made of lower case letters, digits and
/// underscores, and the words between its underscores are neither empty nor left out of names.
pub open spec fn nombre_limpio(s: Seq<char>) -> bool {
    &&& de_nombre(s)
    &&& forall|k: int|
        0 <= k < partes(s, '_').len() ==> (#[trigger] partes(s, '_')[k]).len() > 0
            && !prohibidas().contains(partes(s, '_')[k])
}

/// A suggested name is made of lower case letters, digits and underscores alone.
pub proof fn sugerido_es_de_nombre(
    v: ValidacionCadena,
    c: Seq<char>,
    b: Seq<char>,
    m: Seq<char>,
    d: Seq<char>,
)
    requires
        v.resulta_de(c, b, m, d),
    ensures
        de_nombre(v.sugerido@),
{
}

/// A name with nothing wrong in it is the name that is suggested for it.
pub proof fn sin_errores_coincide(
    v: ValidacionCadena,
    c: Seq<char>,
    b: Seq<char>,
    m: Seq<char>,
    d: Seq<char>,
)
    requires
        v.resulta_de(c, b, m, d),
        v.errores@.len() == 0,
    ensures
        v.incidencia,
{
    assert(vistas(v.errores@).len() == 0);
}

proof fn lema_reemplazado_igual(s: Seq<char>, buscado: char, por: Seq<char>)
    requires
        forall|i: int| 0 <= i < s.len() ==> s[i] != buscado,
    ensures
        reemplazado(s, buscado, por) == s,
    decreases s.len(),
{
    if s.len() > 0 {
        lema_reemplazado_igual(s.drop_last(), buscado, por);
        assert(s =~= s.drop_last() + seq![s.last()]);
    }
}

proof fn lema_sin_marcas_igual(s: Seq<char>)
    requires
        es_ascii(s),
    ensures
        sin_marcas(s) == s,
    decreases s.len(),
{
    reveal(Seq::filter);
    if s.len() > 0 {
        lema_sin_marcas_igual(s.drop_last());
        assert(s[s.len() - 1] <= '\u{7f}');
        assert(s =~= s.drop_last().push(s.last()));
    }
}

proof fn lema_partes_de_nombre(s: Seq<char>)
    requires
        de_nombre(s),
    ensures
        partes(s, '_').len() >= 1,
        forall|k: int| 0 <= k < partes(s, '_').len() ==> de_nombre(#[trigger] partes(s, '_')[k]),
    decreases s.len(),
{
    if s.len() > 0 {
        lema_partes_de_nombre(s.drop_last());
        assert(es_alfanumerico(s[s.len() - 1]) || s[s.len() - 1] == '_');
    }
}

proof fn lema_unido_de_nombre(v: Seq<Seq<char>>)
    requires
        forall|k: int| 0 <= k < v.len() ==> de_nombre(#[trigger] v[k]),
    ensures
        de_nombre(unido(v, '_')),
    decreases v.len(),
{
    if v.len() > 1 {
        assert forall|k: int| 0 <= k < v.drop_last().len() implies de_nombre(
            #[trigger] v.drop_last()[k],
        ) by {
            assert(de_nombre(v[k]));
        }
        lema_unido_de_nombre(v.drop_last());
        assert(de_nombre(v[v.len() - 1]));
    } else if v.len() == 1 {
        assert(de_nombre(v[0]));
    }
}

proof fn lema_sin_articulos_de_nombre(s: Seq<char>)
    requires
        de_nombre(s),
    ensures
        de_nombre(sin_articulos(s)),
{
    let p = |p: Seq<char>| p.len() > 0 && !prohibidas().contains(p);
    lema_partes_de_nombre(s);
    assert forall|k: int| 0 <= k < palabras(s).len() implies de_nombre(
        #[trigger] palabras(s)[k],
    ) by {
        partes(s, '_').lemma_filter_contains_rev(p, palabras(s)[k]);
    }
    lema_unido_de_nombre(palabras(s));
}

proof fn lema_filtro_de_todas(v: Seq<Seq<char>>, p: spec_fn(Seq<char>) -> bool)
    requires
        forall|k: int| 0 <= k < v.len() ==> p(#[trigger] v[k]),
    ensures
        v.filter(p) == v,
    decreases v.len(),
{
    reveal(Seq::filter);
    if v.len() > 0 {
        lema_filtro_de_todas(v.drop_last(), p);
        assert(p(v[v.len() - 1]));
        assert(v =~= v.drop_last().push(v.last()));
    }
}

proof fn lema_limpio_igual(s: Seq<char>)
    requires
        nombre_limpio(s),
    ensures
        sin_articulos(s) == s,
{
    lema_filtro_de_todas(
        partes(s, '_'),
        |p: Seq<char>| p.len() > 0 && !prohibidas().contains(p),
    );
    unir_deshace_partir(s, '_');
}

proof fn lema_sin_articulos_vacio(s: Seq<char>)
    requires
        s.len() == 0,
    ensures
        sin_articulos(s).len() == 0,
{
    let p = |p: Seq<char>| p.len() > 0 && !prohibidas().contains(p);
    if palabras(s).len() > 0 {
        partes(s, '_').lemma_filter_pred(p, 0);
        partes(s, '_').lemma_filter_contains_rev(p, palabras(s)[0]);
    }
}

/// If what is left of a text without empty words and the words that a name leaves out is made of
/// lower case letters, digits and underscores, it is empty or a clean name.
proof fn lema_sin_articulos_limpio(s: Seq<char>)
    requires
        de_nombre(sin_articulos(s)),
    ensures
        sin_articulos(s).len() == 0 || nombre_limpio(sin_articulos(s)),
{
    let p = |p: Seq<char>| p.len() > 0 && !prohibidas().contains(p);
    let v = palabras(s);
    partes_sin_separador(s, '_');
    assert forall|k: int| 0 <= k < v.len() implies !(#[trigger] v[k]).contains('_') && v[k].len()
        > 0 && !prohibidas().contains(v[k]) by {
        partes(s, '_').lemma_filter_contains_rev(p, v[k]);
        partes(s, '_').lemma_filter_pred(p, k);
    }
    if v.len() > 0 {
        partir_deshace_unir(v, '_');
        assert forall|k: int| 0 <= k < partes(sin_articulos(s), '_').len() implies (
        #[trigger] partes(sin_articulos(s), '_')[k]).len() > 0 && !prohibidas().contains(
            partes(sin_articulos(s), '_')[k],
        ) by {
            assert(v[k].len() > 0);
        }
    }
}

/// The steps before the removal of words leave a text made of lower case letters, digits and
/// underscores as it is.
proof fn lema_pasos_de_nombre(s: Seq<char>)
    requires
        de_nombre(s),
    ensures
        es_ascii(s),
        recortada(s) == s,
        s.map_values(|c: char| minuscula_ascii(c)) == s,
        reemplazado(s, 'ñ', "ni"@) == s,
        sin_marcas(s) == s,
        reemplazado(s, ' ', "_"@) == s,
        sin_especiales(s) == s,
{
    assert forall|i: int| 0 <= i < s.len() implies !es_blanco(#[trigger] s[i]) && s[i] <= '\u{7f}'
        && s[i] != 'ñ' && s[i] != ' ' by {
        assert(es_alfanumerico(s[i]) || s[i] == '_');
    }
    if s.len() > 0 {
        assert(!es_blanco(s[0]) && !es_blanco(s[s.len() - 1]));
    }
    assert(s.map_values(|c: char| minuscula_ascii(c)) =~= s);
    assert(sin_especiales(s) =~= s);
    lema_reemplazado_igual(s, 'ñ', "ni"@);
    lema_reemplazado_igual(s, ' ', "_"@);
    lema_sin_marcas_igual(s);
}

proof fn lema_sugerido_de_nombre(s: Seq<char>)
    requires
        de_nombre(s),
    ensures
        sugerido_de(s) == sin_articulos(s),
{
    lema_pasos_de_nombre(s);
    lema_sin_articulos_de_nombre(s);
    lema_pasos_de_nombre(sin_articulos(s));
}

proof fn lema_coincide_si_limpio(
    v: ValidacionCadena,
    c: Seq<char>,
    b: Seq<char>,
    m: Seq<char>,
    d: Seq<char>,
)
    requires
        v.resulta_de(c, b, m, d),
        de_nombre(c) ==> b == c && m == c && d == c,
    ensures
        v.incidencia == (c.len() == 0 || nombre_limpio(c)),
        v.incidencia ==> v.errores@.len() == 0,
{
    sugerido_es_de_nombre(v, c, b, m, d);
    if de_nombre(c) {
        lema_sugerido_de_nombre(c);
        lema_sin_articulos_de_nombre(c);
        lema_sin_articulos_limpio(c);
        if nombre_limpio(c) {
            lema_limpio_igual(c);
        }
        if c.len() == 0 {
            lema_sin_articulos_vacio(c);
            assert(sin_articulos(c) =~= c);
        }
        if v.incidencia {
            lema_pasos_de_nombre(c);
            assert(errores_de(c, c, c, c) =~= Seq::empty());
            assert(vistas(v.errores@).len() == v.errores@.len());
        }
    }
}

/// Validates the name `cadena_arg`.
///
/// The name suggested in its place has no white space around it, is in lower case, has `ni` in
/// place of every `ñ`, no accents, underscores in place of spaces, neither articles nor
/// prepositions, and underscores in place of every other character.
pub fn validar_cadena(cadena_arg: &str) -> (r: ValidacionCadena)
    ensures
        r.validada(cadena_arg@),
{
    let sin_bordes = recortar(cadena_arg);
    let en_minusculas = sin_bordes.as_str().to_lowercase();
    let sin_enie = reemplazar(en_minusculas.as_str(), 'ñ', "ni");
    let descompuesta = descomponer(sin_enie.as_str());
    let r = componer_validacion(
        cadena_arg,
        sin_bordes.as_str(),
        en_minusculas.as_str(),
        descompuesta.as_str(),
    );
    proof {
        let c = cadena_arg@;
        sugerido_es_de_nombre(r, c, sin_bordes@, en_minusculas@, descompuesta@);
        if r.errores@.len() == 0 {
            sin_errores_coincide(r, c, sin_bordes@, en_minusculas@, descompuesta@);
        }
        if de_nombre(c) {
            lema_pasos_de_nombre(c);
        }
        lema_coincide_si_limpio(r, c, sin_bordes@, en_minusculas@, descompuesta@);
        if es_ascii(c) {
            lema_recortada_ascii(c);
            let b = recortada(c);
            let m = b.map_values(|c: char| minuscula_ascii(c));
            assert forall|i: int| 0 <= i < m.len() implies #[trigger] m[i] <= '\u{7f}' && m[i]
                != 'ñ' by {
                assert(b[i] <= '\u{7f}');
            }
            lema_reemplazado_igual(m, 'ñ', "ni"@);
        }
    }
    r
}

/// Two passes are enough: the name suggested for a suggested name is empty or clean, and it is the
/// one suggested for itself.
pub proof fn dos_pasadas_bastan(
    cadena: Seq<char>,
    primera: ValidacionCadena,
    segunda: ValidacionCadena,
    tercera: ValidacionCadena,
)
    requires
        primera.validada(cadena),
        segunda.validada(primera.sugerido@),
        tercera.validada(segunda.sugerido@),
    ensures
        segunda.sugerido@.len() == 0 || nombre_limpio(segunda.sugerido@),
        tercera.sugerido@ == segunda.sugerido@,
        tercera.incidencia,
        tercera.errores@.len() == 0,
{
    let s = primera.sugerido@;
    lema_pasos_de_nombre(s);
    lema_sugerido_de_nombre(s);
    lema_sin_articulos_de_nombre(s);
    lema_sin_articulos_limpio(s);
    lema_limpio_coincide(segunda.sugerido@, tercera);
}

proof fn lema_aviso_de_especiales(c: Seq<char>, b: Seq<char>, m: Seq<char>, d: Seq<char>)
    requires
        ({
            let articulos = sin_articulos(reemplazado(sin_marcas(d), ' ', "_"@));
            articulos != sin_especiales(articulos)
        }),
    ensures
        errores_de(c, b, m, d).contains("Incluye otros carácteres especiales"@),
{
    let e = errores_de(c, b, m, d);
    assert(e[e.len() - 1] == "Incluye otros carácteres especiales"@);
}

proof fn lema_limpio_coincide(c: Seq<char>, v: ValidacionCadena)
    requires
        c.len() == 0 || nombre_limpio(c),
        v.validada(c),
    ensures
        v.sugerido@ == c,
        v.incidencia,
        v.errores@.len() == 0,
{
}

/// One pass is enough for a text that is not said to hold other special characters: the name
/// suggested for it is empty or clean, and it is the one suggested for itself.
pub proof fn una_pasada_basta(
    cadena: Seq<char>,
    primera: ValidacionCadena,
    segunda: ValidacionCadena,
)
    requires
        primera.validada(cadena),
        !vistas(primera.errores@).contains("Incluye otros carácteres especiales"@),
        segunda.validada(primera.sugerido@),
    ensures
        primera.sugerido@.len() == 0 || nombre_limpio(primera.sugerido@),
        segunda.sugerido@ == primera.sugerido@,
        segunda.incidencia,
        segunda.errores@.len() == 0,
{
    let d = descompuesta(cadena);
    let s = reemplazado(sin_marcas(d), ' ', "_"@);
    if sin_articulos(s) != sin_especiales(sin_articulos(s)) {
        lema_aviso_de_especiales(cadena, recortada(cadena), en_minusculas(cadena), d);
    }
    assert(primera.sugerido@ == sin_articulos(s));
    lema_sin_articulos_limpio(s);
    lema_limpio_coincide(primera.sugerido@, segunda);
}

proof fn lema_iniciales_de_mas(a: Seq<char>, s: Seq<char>)
    requires
        blancos(a),
    ensures
        sin_blancos_iniciales(a + s) == sin_blancos_iniciales(s),
    decreases a.len(),
{
    if a.len() > 0 {
        assert(es_blanco(a[0]));
        let resto = a.drop_first();
        assert forall|i: int| 0 <= i < resto.len() implies es_blanco(#[trigger] resto[i]) by {
            assert(es_blanco(a[i + 1]));
        }
        lema_iniciales_de_mas(resto, s);
        assert((a + s).drop_first() =~= resto + s);
    } else {
        assert(a + s =~= s);
    }
}

proof fn lema_finales_de_mas(s: Seq<char>, b: Seq<char>)
    requires
        blancos(b),
    ensures
        sin_blancos_finales(s + b) == sin_blancos_finales(s),
    decreases b.len(),
{
    if b.len() > 0 {
        assert(es_blanco(b[b.len() - 1]));
        let resto = b.drop_last();
        assert forall|i: int| 0 <= i < resto.len() implies es_blanco(#[trigger] resto[i]) by {
            assert(es_blanco(b[i]));
        }
        lema_finales_de_mas(s, resto);
        assert((s + b).drop_last() =~= s + resto);
    } else {
        assert(s + b =~= s);
    }
}

proof fn lema_iniciales_con_finales(s: Seq<char>, b: Seq<char>)
    requires
        blancos(b),
    ensures
        recortada(s + b) == recortada(s),
    decreases s.len(),
{
    if s.len() == 0 {
        lema_iniciales_de_mas(b, s);
        assert(s + b =~= b + s);
    } else if es_blanco(s[0]) {
        assert((s + b).drop_first() =~= s.drop_first() + b);
        lema_iniciales_con_finales(s.drop_first(), b);
    } else {
        assert((s + b)[0] == s[0]);
        lema_finales_de_mas(s, b);
    }
}

/// Whether `s` is made of white space alone.
pub open spec fn blancos(s: Seq<char>) -> bool {
    forall|i: int| 0 <= i < s.len() ==> es_blanco(#[trigger] s[i])
}

/// What is wrong with `cadena`, apart from the white space around it.
pub open spec fn otros_errores(cadena: Seq<char>) -> Seq<Seq<char>> {
    errores_internos(recortada(cadena), en_minusculas(cadena), descompuesta(cadena))
}

proof fn lema_recortada_no_crece(s: Seq<char>)
    ensures
        sin_blancos_finales(s).len() <= s.len(),
        recortada(s).len() <= s.len(),
    decreases s.len(),
{
    if s.len() > 0 {
        lema_recortada_no_crece(s.drop_last());
        lema_recortada_no_crece(s.drop_first());
    }
}

/// White space around a text does not change the name that is suggested for it, nor any message but
/// the one that tells of it.
pub proof fn bordes_no_cambian_sugerido(antes: Seq<char>, cadena: Seq<char>, despues: Seq<char>)
    requires
        blancos(antes),
        blancos(despues),
    ensures
        sugerido(antes + cadena + despues) == sugerido(cadena),
        otros_errores(antes + cadena + despues) == otros_errores(cadena),
        antes.len() + despues.len() > 0 ==> errores(antes + cadena + despues) == seq![
            "Incluye espacios vacíos al inicio o al final"@,
        ] + otros_errores(cadena),
{
    lema_recortada_no_crece(cadena);
    lema_iniciales_con_finales(antes + cadena, despues);
    lema_iniciales_de_mas(antes, cadena);
}

proof fn lema_recortada_ascii(s: Seq<char>)
    requires
        es_ascii(s),
    ensures
        es_ascii(recortada(s)),
{
    lema_iniciales_ascii(s);
    lema_finales_ascii(sin_blancos_iniciales(s));
}

proof fn lema_iniciales_ascii(s: Seq<char>)
    requires
        es_ascii(s),
    ensures
        es_ascii(sin_blancos_iniciales(s)),
    decreases s.len(),
{
    if s.len() > 0 && es_blanco(s[0]) {
        assert forall|i: int| 0 <= i < s.drop_first().len() implies #[trigger] s.drop_first()[i]
            <= '\u{7f}' by {
            assert(s[i + 1] <= '\u{7f}');
        }
        lema_iniciales_ascii(s.drop_first());
    }
}

proof fn lema_finales_ascii(s: Seq<char>)
    requires
        es_ascii(s),
    ensures
        es_ascii(sin_blancos_finales(s)),
    decreases s.len(),
{
    if s.len() > 0 && es_blanco(s.last()) {
        lema_finales_ascii(s.drop_last());
    }
}

/// The words that a name leaves out are these, and no other.
pub proof fn palabras_que_sobran(p: Seq<char>)
    ensures
        prohibidas().len() == 33,
        prohibidas().contains(p) <==> {
            ||| p == "el"@ || p == "la"@ || p == "los"@ || p == "las"@
            ||| p == "un"@ || p == "una"@ || p == "unos"@ || p == "unas"@
            ||| p == "a"@ || p == "que"@ || p == "ante"@ || p == "bajo"@
            ||| p == "cabe"@ || p == "con"@ || p == "contra"@ || p == "de"@
            ||| p == "del"@ || p == "durante"@ || p == "en"@ || p == "entre"@
            ||| p == "mediante"@ || p == "para"@ || p == "segun"@ || p == "por"@
            ||| p == "sin"@ || p == "so"@ || p == "sobre"@ || p == "tras"@
            ||| p == "versus"@ || p == "y"@ || p == "o"@ || p == "e"@
            ||| p == "u"@
        },
{
    let l = prohibidas();
    assert(l[0] == "el"@);
    assert(l[1] == "la"@);
    assert(l[2] == "los"@);
    assert(l[3] == "las"@);
    assert(l[4] == "un"@);
    assert(l[5] == "una"@);
    assert(l[6] == "unos"@);
    assert(l[7] == "unas"@);
    assert(l[8] == "a"@);
    assert(l[9] == "que"@);
    assert(l[10] == "ante"@);
    assert(l[11] == "bajo"@);
    assert(l[12] == "cabe"@);
    assert(l[13] == "con"@);
    assert(l[14] == "contra"@);
    assert(l[15] == "de"@);
    assert(l[16] == "del"@);
    assert(l[17] == "durante"@);
    assert(l[18] == "en"@);
    assert(l[19] == "entre"@);
    assert(l[20] == "mediante"@);
    assert(l[21] == "para"@);
    assert(l[22] == "segun"@);
    assert(l[23] == "por"@);
    assert(l[24] == "sin"@);
    assert(l[25] == "so"@);
    assert(l[26] == "sobre"@);
    assert(l[27] == "tras"@);
    assert(l[28] == "versus"@);
    assert(l[29] == "y"@);
    assert(l[30] == "o"@);
    assert(l[31] == "e"@);
    assert(l[32] == "u"@);
    if l.contains(p) {
        let k = choose|k: int| 0 <= k < l.len() && l[k] == p;
        assert(l[k] == p);
    }
}

/// A text is some white space, then what is left of it without the white space around it, then some
/// white space. What is left neither starts nor ends with white space.
pub proof fn recortar_los_bordes(s: Seq<char>) -> (bordes: (Seq<char>, Seq<char>))
    ensures
        s == bordes.0 + recortada(s) + bordes.1,
        forall|i: int| 0 <= i < bordes.0.len() ==> es_blanco(#[trigger] bordes.0[i]),
        forall|i: int| 0 <= i < bordes.1.len() ==> es_blanco(#[trigger] bordes.1[i]),
        recortada(s).len() > 0 ==> !es_blanco(recortada(s)[0]) && !es_blanco(recortada(s).last()),
{
    let a = lema_borde_inicial(s);
    let b = lema_borde_final(sin_blancos_iniciales(s));
    assert(s =~= a + recortada(s) + b);
    (a, b)
}

proof fn lema_borde_inicial(s: Seq<char>) -> (a: Seq<char>)
    ensures
        s == a + sin_blancos_iniciales(s),
        blancos(a),
        sin_blancos_iniciales(s).len() > 0 ==> !es_blanco(sin_blancos_iniciales(s)[0]),
    decreases s.len(),
{
    if s.len() > 0 && es_blanco(s[0]) {
        let a = lema_borde_inicial(s.drop_first());
        let x = sin_blancos_iniciales(s);
        assert(s =~= seq![s[0]] + s.drop_first());
        assert(seq![s[0]] + a + x =~= seq![s[0]] + (a + x));
        seq![s[0]] + a
    } else {
        assert(s =~= Seq::<char>::empty() + s);
        Seq::empty()
    }
}

proof fn lema_borde_final(s: Seq<char>) -> (b: Seq<char>)
    ensures
        s == sin_blancos_finales(s) + b,
        blancos(b),
        sin_blancos_finales(s).len() > 0 ==> !es_blanco(sin_blancos_finales(s).last())
            && sin_blancos_finales(s)[0] == s[0],
    decreases s.len(),
{
    if s.len() > 0 && es_blanco(s.last()) {
        let b = lema_borde_final(s.drop_last());
        let x = sin_blancos_finales(s);
        assert(s =~= s.drop_last().push(s.last()));
        assert(x + b.push(s.last()) =~= (x + b).push(s.last()));
        b.push(s.last())
    } else {
        assert(s =~= s + Seq::<char>::empty());
        Seq::empty()
    }
}

/// Combining marks are taken out character by character: those from U+0300 to U+036F go, and any
/// other character stays where it is.
pub proof fn quitar_marcas_por_caracteres(a: Seq<char>, b: Seq<char>, c: char)
    ensures
        sin_marcas(a + b) == sin_marcas(a) + sin_marcas(b),
        sin_marcas(seq![c]) == (if '\u{300}' <= c <= '\u{36f}' {
            Seq::empty()
        } else {
            seq![c]
        }),
{
    let p = |c: char| !es_marca(c);
    Seq::filter_distributes_over_add(a, b, p);
    reveal_with_fuel(Seq::filter, 2);
    assert(seq![c].drop_last() =~= Seq::empty());
    assert(sin_marcas(seq![c]) =~= if '\u{300}' <= c <= '\u{36f}' {
        Seq::empty()
    } else {
        seq![c]
    });
}

/// Words are left out one by one: a last word that is empty, or that a name leaves out, goes with the
/// underscore before it, and any other stays, after an underscore if a word stands before it.
pub proof fn articulos_por_palabras(s: Seq<char>, w: Seq<char>)
    requires
        !w.contains('_'),
    ensures
        ({
            let sobra = w.len() == 0 || prohibidas().contains(w);
            let resto = sin_articulos(s);
            &&& sin_articulos(w) == (if sobra {
                Seq::empty()
            } else {
                w
            })
            &&& sin_articulos(s.push('_') + w) == (if sobra {
                resto
            } else if resto.len() == 0 {
                w
            } else {
                resto.push('_') + w
            })
        }),
{
    let p = |p: Seq<char>| p.len() > 0 && !prohibidas().contains(p);
    let v = partes(s, '_');
    unir_deshace_partir(s, '_');
    partes_sin_separador(s, '_');
    let vw = v.push(w);
    assert(vw.drop_last() =~= v);
    assert forall|k: int| 0 <= k < vw.len() implies !(#[trigger] vw[k]).contains('_') by {
        if k < v.len() {
            assert(!v[k].contains('_'));
        }
    }
    partir_deshace_unir(vw, '_');
    partir_deshace_unir(seq![w], '_');
    assert(partes(s.push('_') + w, '_') == vw);
    assert(partes(w, '_') == seq![w]);
    reveal_with_fuel(Seq::filter, 2);
    assert(seq![w].drop_last() =~= Seq::empty());
    assert(palabras(s.push('_') + w) == (if p(w) {
        palabras(s).push(w)
    } else {
        palabras(s)
    }));
    assert(palabras(w) =~= if p(w) {
        seq![w]
    } else {
        Seq::empty()
    });
    if palabras(s).len() > 0 {
        v.lemma_filter_pred(p, palabras(s).len() - 1);
        assert(sin_articulos(s).len() > 0);
        assert(palabras(s).push(w).drop_last() =~= palabras(s));
    } else {
        assert(palabras(s).push(w) =~= seq![w]);
    }
}

/// The messages of `ms` that `hay` marks, in order.
spec fn avisos(hay: Seq<bool>, ms: Seq<Seq<char>>) -> Seq<Seq<char>>
    decreases ms.len(),
{
    if ms.len() == 0 {
        Seq::empty()
    } else {
        avisos(hay.drop_last(), ms.drop_last()) + aviso(hay.last(), ms.last())
    }
}

proof fn lema_avisos(hay: Seq<bool>, ms: Seq<Seq<char>>)
    requires
        hay.len() == ms.len(),
        ms.no_duplicates(),
    ensures
        forall|k: int| 0 <= k < ms.len() ==> (avisos(hay, ms).contains(#[trigger] ms[k]) <==> hay[k]),
        forall|i: int|
            0 <= i < avisos(hay, ms).len() ==> ms.contains(#[trigger] avisos(hay, ms)[i]),
        forall|i: int, j: int|
            0 <= i < j < avisos(hay, ms).len() ==> ms.index_of(#[trigger] avisos(hay, ms)[i])
                < ms.index_of(#[trigger] avisos(hay, ms)[j]),
    decreases ms.len(),
{
    if ms.len() > 0 {
        let n = ms.len() - 1;
        let h = hay.drop_last();
        let m = ms.drop_last();
        let previos = avisos(h, m);
        let todos = avisos(hay, ms);
        lema_avisos(h, m);
        assert forall|x: Seq<char>| #[trigger] m.contains(x) implies ms.contains(x) && m.index_of(x)
            == ms.index_of(x) && ms.index_of(x) < n && x != ms[n] by {
            let k = m.index_of(x);
            assert(m[k] == x && ms[k] == x);
            assert(ms[ms.index_of(x)] == x);
        }
        assert(ms[n] == ms.last());
        assert(ms.contains(ms[n]) && ms.index_of(ms[n]) == n);
        assert(todos == previos + aviso(hay[n], ms[n]));
        assert forall|i: int| 0 <= i < previos.len() implies #[trigger] todos[i] == previos[i]
            && m.contains(todos[i]) by {
            assert(m.contains(previos[i]));
        }
        assert forall|k: int| 0 <= k < ms.len() implies (todos.contains(#[trigger] ms[k])
            <==> hay[k]) by {
            if k < n {
                assert(m[k] == ms[k] && h[k] == hay[k]);
                assert(previos.contains(m[k]) <==> h[k]);
                if previos.contains(ms[k]) {
                    let i = choose|i: int| 0 <= i < previos.len() && previos[i] == ms[k];
                    assert(todos[i] == ms[k]);
                }
                if todos.contains(ms[k]) {
                    let i = choose|i: int| 0 <= i < todos.len() && todos[i] == ms[k];
                    assert(i < previos.len());
                    assert(previos[i] == ms[k]);
                }
            } else {
                if hay[n] {
                    assert(todos[previos.len() as int] == ms[n]);
                } else if todos.contains(ms[n]) {
                    let i = choose|i: int| 0 <= i < todos.len() && todos[i] == ms[n];
                    assert(m.contains(todos[i]));
                }
            }
        }
        assert forall|i: int, j: int| 0 <= i < j < todos.len() implies ms.index_of(
            #[trigger] todos[i],
        ) < ms.index_of(#[trigger] todos[j]) by {
            assert(m.contains(todos[i]));
            if j < previos.len() {
                assert(m.contains(todos[j]));
                assert(m.index_of(previos[i]) < m.index_of(previos[j]));
            }
        }
    }
}

proof fn lema_mensajes_distintos()
    ensures
        seq![
            "Incluye espacios vacíos al inicio o al final"@,
            "Incluye mayúsculas"@,
            "Incluye la letra ñ"@,
            "Incluye acentos"@,
            "Incluye espacios"@,
            "Incluye artículos o preposiciones"@,
            "Incluye otros carácteres especiales"@,
        ].no_duplicates(),
{
    reveal_strlit("Incluye espacios vacíos al inicio o al final");
    reveal_strlit("Incluye mayúsculas");
    reveal_strlit("Incluye la letra ñ");
    reveal_strlit("Incluye acentos");
    reveal_strlit("Incluye espacios");
    reveal_strlit("Incluye artículos o preposiciones");
    reveal_strlit("Incluye otros carácteres especiales");
    let l = "Incluye la letra ñ"@;
    let m = "Incluye mayúsculas"@;
    assert(l[8] == 'l' && m[8] == 'm');
    assert("Incluye espacios vacíos al inicio o al final"@.len() == 44);
    assert(l.len() == 18 && m.len() == 18);
    assert("Incluye acentos"@.len() == 15);
    assert("Incluye espacios"@.len() == 16);
    assert("Incluye artículos o preposiciones"@.len() == 33);
    assert("Incluye otros carácteres especiales"@.len() == 35);
}

proof fn lema_reemplazo_crece(s: Seq<char>, buscado: char, por: Seq<char>)
    requires
        por.len() >= 1,
    ensures
        reemplazado(s, buscado, por).len() >= s.len(),
        por.len() > 1 && s.contains(buscado) ==> reemplazado(s, buscado, por).len() > s.len(),
        !por.contains(buscado) ==> !reemplazado(s, buscado, por).contains(buscado),
    decreases s.len(),
{
    if s.len() > 0 {
        let a = s.drop_last();
        lema_reemplazo_crece(a, buscado, por);
        if s.contains(buscado) && s.last() != buscado {
            let k = choose|k: int| 0 <= k < s.len() && s[k] == buscado;
            assert(a[k] == buscado);
        }
        let r = reemplazado(s, buscado, por);
        if !por.contains(buscado) && r.contains(buscado) {
            let x = reemplazado(a, buscado, por);
            let k = choose|k: int| 0 <= k < r.len() && r[k] == buscado;
            if k < x.len() {
                assert(x[k] == buscado);
            } else if s.last() == buscado {
                assert(por[k - x.len()] == buscado);
            }
        }
    }
}

/// Each message is there exactly when the text has what it tells of, in the order of the steps, and
/// there is no other message. The texts that the steps go through are named on the way.
#[verifier::spinoff_prover]
#[verifier::rlimit(60)]
pub proof fn mensajes_de_una_validacion(v: ValidacionCadena, c: Seq<char>)
    requires
        v.validada(c),
    ensures
        ({
            let e = vistas(v.errores@);
            let b = recortada(c);
            let m = minusculas(b);
            let n = reemplazado(m, 'ñ', "ni"@);
            let a = sin_marcas(descomposicion(n));
            let x = reemplazado(a, ' ', "_"@);
            let w = sin_articulos(x);
            &&& e.contains("Incluye espacios vacíos al inicio o al final"@) <==> c.len() > 0 && (es_blanco(
                c[0],
            ) || es_blanco(c.last()))
            &&& e.contains("Incluye mayúsculas"@) <==> m != b
            &&& e.contains("Incluye la letra ñ"@) <==> m.contains('ñ')
            &&& e.contains("Incluye acentos"@) <==> a != n
            &&& e.contains("Incluye espacios"@) <==> a.contains(' ')
            &&& e.contains("Incluye artículos o preposiciones"@) <==> w != x
            &&& e.contains("Incluye otros carácteres especiales"@) <==> exists|i: int|
                0 <= i < w.len() && !('a' <= #[trigger] w[i] <= 'z' || '0' <= w[i] <= '9' || w[i]
                    == '_')
        }),
        ({
            let e = vistas(v.errores@);
            let ms = seq![
                "Incluye espacios vacíos al inicio o al final"@,
                "Incluye mayúsculas"@,
                "Incluye la letra ñ"@,
                "Incluye acentos"@,
                "Incluye espacios"@,
                "Incluye artículos o preposiciones"@,
                "Incluye otros carácteres especiales"@,
            ];
            &&& forall|i: int| 0 <= i < e.len() ==> ms.contains(#[trigger] e[i])
            &&& forall|i: int, j: int|
                0 <= i < j < e.len() ==> ms.index_of(#[trigger] e[i]) < ms.index_of(
                    #[trigger] e[j],
                )
        }),
{
    let b = recortada(c);
    let m = minusculas(b);
    let n = reemplazado(m, 'ñ', "ni"@);
    let a = sin_marcas(descomposicion(n));
    let x = reemplazado(a, ' ', "_"@);
    let w = sin_articulos(x);
    assert(v.resulta_de(c, b, m, descomposicion(n)));
    lema_bordes_si_cambia(c);
    pasos_dados(v, c, b, m, descomposicion(n));
}

/// The same, whatever the texts without white space around (`b`), in lower case (`m`) and decomposed
/// (`d`) are.
pub proof fn pasos_dados(
    v: ValidacionCadena,
    c: Seq<char>,
    b: Seq<char>,
    m: Seq<char>,
    d: Seq<char>,
)
    requires
        v.resulta_de(c, b, m, d),
    ensures
        v.cadena@ == c,
        v.incidencia <==> v.sugerido@ == c,
        ({
            let e = vistas(v.errores@);
            let n = reemplazado(m, 'ñ', "ni"@);
            let a = sin_marcas(d);
            let x = reemplazado(a, ' ', "_"@);
            let w = sin_articulos(x);
            &&& e.contains("Incluye espacios vacíos al inicio o al final"@) <==> b != c
            &&& e.contains("Incluye mayúsculas"@) <==> m != b
            &&& e.contains("Incluye la letra ñ"@) <==> m.contains('ñ')
            &&& e.contains("Incluye acentos"@) <==> a != n
            &&& e.contains("Incluye espacios"@) <==> a.contains(' ')
            &&& e.contains("Incluye artículos o preposiciones"@) <==> w != x
            &&& e.contains("Incluye otros carácteres especiales"@) <==> exists|i: int|
                0 <= i < w.len() && !('a' <= #[trigger] w[i] <= 'z' || '0' <= w[i] <= '9' || w[i]
                    == '_')
            &&& v.sugerido@.len() == w.len()
            &&& forall|i: int|
                0 <= i < w.len() ==> #[trigger] v.sugerido@[i] == if 'a' <= w[i] <= 'z' || '0'
                    <= w[i] <= '9' {
                    w[i]
                } else {
                    '_'
                }
        }),
        ({
            let e = vistas(v.errores@);
            let ms = seq![
                "Incluye espacios vacíos al inicio o al final"@,
                "Incluye mayúsculas"@,
                "Incluye la letra ñ"@,
                "Incluye acentos"@,
                "Incluye espacios"@,
                "Incluye artículos o preposiciones"@,
                "Incluye otros carácteres especiales"@,
            ];
            &&& forall|i: int| 0 <= i < e.len() ==> ms.contains(#[trigger] e[i])
            &&& forall|i: int, j: int|
                0 <= i < j < e.len() ==> ms.index_of(#[trigger] e[i]) < ms.index_of(
                    #[trigger] e[j],
                )
        }),
{
    let n = reemplazado(m, 'ñ', "ni"@);
    let a = sin_marcas(d);
    let x = reemplazado(a, ' ', "_"@);
    let w = sin_articulos(x);
    lema_errores_son_avisos(v, c, b, m, d);
    lema_reemplazos_si_cambian(m, a);
    lema_especiales_si_cambia(w);
    lema_mensajes_de_los_pasos(vistas(v.errores@), c, b, m, n, a, x, w);
}

proof fn lema_mensajes_de_los_pasos(
    e: Seq<Seq<char>>,
    c: Seq<char>,
    b: Seq<char>,
    m: Seq<char>,
    n: Seq<char>,
    a: Seq<char>,
    x: Seq<char>,
    w: Seq<char>,
)
    requires
        e == avisos(
            seq![b != c, b != m, n != m, a != n, x != a, w != x, w != sin_especiales(w)],
            seq![
                "Incluye espacios vacíos al inicio o al final"@,
                "Incluye mayúsculas"@,
                "Incluye la letra ñ"@,
                "Incluye acentos"@,
                "Incluye espacios"@,
                "Incluye artículos o preposiciones"@,
                "Incluye otros carácteres especiales"@,
            ],
        ),
    ensures
        e.contains("Incluye espacios vacíos al inicio o al final"@) <==> b != c,
        e.contains("Incluye mayúsculas"@) <==> m != b,
        e.contains("Incluye la letra ñ"@) <==> n != m,
        e.contains("Incluye acentos"@) <==> a != n,
        e.contains("Incluye espacios"@) <==> x != a,
        e.contains("Incluye artículos o preposiciones"@) <==> w != x,
        e.contains("Incluye otros carácteres especiales"@) <==> w != sin_especiales(w),
        ({
            let ms = seq![
                "Incluye espacios vacíos al inicio o al final"@,
                "Incluye mayúsculas"@,
                "Incluye la letra ñ"@,
                "Incluye acentos"@,
                "Incluye espacios"@,
                "Incluye artículos o preposiciones"@,
                "Incluye otros carácteres especiales"@,
            ];
            &&& forall|i: int| 0 <= i < e.len() ==> ms.contains(#[trigger] e[i])
            &&& forall|i: int, j: int|
                0 <= i < j < e.len() ==> ms.index_of(#[trigger] e[i]) < ms.index_of(
                    #[trigger] e[j],
                )
        }),
{
    let hay = seq![b != c, b != m, n != m, a != n, x != a, w != x, w != sin_especiales(w)];
    lema_avisos_de_mensajes(hay);
}

proof fn lema_errores_son_avisos(
    v: ValidacionCadena,
    c: Seq<char>,
    b: Seq<char>,
    m: Seq<char>,
    d: Seq<char>,
)
    requires
        v.resulta_de(c, b, m, d),
    ensures
        ({
            let n = reemplazado(m, 'ñ', "ni"@);
            let a = sin_marcas(d);
            let x = reemplazado(a, ' ', "_"@);
            let w = sin_articulos(x);
            vistas(v.errores@) == avisos(
                seq![b != c, b != m, n != m, a != n, x != a, w != x, w != sin_especiales(w)],
                seq![
                    "Incluye espacios vacíos al inicio o al final"@,
                    "Incluye mayúsculas"@,
                    "Incluye la letra ñ"@,
                    "Incluye acentos"@,
                    "Incluye espacios"@,
                    "Incluye artículos o preposiciones"@,
                    "Incluye otros carácteres especiales"@,
                ],
            )
        }),
{
    let n = reemplazado(m, 'ñ', "ni"@);
    let a = sin_marcas(d);
    let x = reemplazado(a, ' ', "_"@);
    let w = sin_articulos(x);
    let hay = seq![b != c, b != m, n != m, a != n, x != a, w != x, w != sin_especiales(w)];
    let ms = seq![
        "Incluye espacios vacíos al inicio o al final"@,
        "Incluye mayúsculas"@,
        "Incluye la letra ñ"@,
        "Incluye acentos"@,
        "Incluye espacios"@,
        "Incluye artículos o preposiciones"@,
        "Incluye otros carácteres especiales"@,
    ];
    lema_lista_de_avisos(hay, ms);
}

proof fn lema_avisos_de_mensajes(hay: Seq<bool>)
    requires
        hay.len() == 7,
    ensures
        ({
            let ms = seq![
                "Incluye espacios vacíos al inicio o al final"@,
                "Incluye mayúsculas"@,
                "Incluye la letra ñ"@,
                "Incluye acentos"@,
                "Incluye espacios"@,
                "Incluye artículos o preposiciones"@,
                "Incluye otros carácteres especiales"@,
            ];
            let e = avisos(hay, ms);
            &&& e.contains("Incluye espacios vacíos al inicio o al final"@) <==> hay[0]
            &&& e.contains("Incluye mayúsculas"@) <==> hay[1]
            &&& e.contains("Incluye la letra ñ"@) <==> hay[2]
            &&& e.contains("Incluye acentos"@) <==> hay[3]
            &&& e.contains("Incluye espacios"@) <==> hay[4]
            &&& e.contains("Incluye artículos o preposiciones"@) <==> hay[5]
            &&& e.contains("Incluye otros carácteres especiales"@) <==> hay[6]
            &&& forall|i: int| 0 <= i < e.len() ==> ms.contains(#[trigger] e[i])
            &&& forall|i: int, j: int|
                0 <= i < j < e.len() ==> ms.index_of(#[trigger] e[i]) < ms.index_of(
                    #[trigger] e[j],
                )
        }),
{
    let ms = seq![
        "Incluye espacios vacíos al inicio o al final"@,
        "Incluye mayúsculas"@,
        "Incluye la letra ñ"@,
        "Incluye acentos"@,
        "Incluye espacios"@,
        "Incluye artículos o preposiciones"@,
        "Incluye otros carácteres especiales"@,
    ];
    lema_mensajes_distintos();
    lema_avisos(hay, ms);
    assert(ms[0] == "Incluye espacios vacíos al inicio o al final"@);
    assert(ms[1] == "Incluye mayúsculas"@);
    assert(ms[2] == "Incluye la letra ñ"@);
    assert(ms[3] == "Incluye acentos"@);
    assert(ms[4] == "Incluye espacios"@);
    assert(ms[5] == "Incluye artículos o preposiciones"@);
    assert(ms[6] == "Incluye otros carácteres especiales"@);
}

proof fn lema_reemplazos_si_cambian(m: Seq<char>, a: Seq<char>)
    ensures
        reemplazado(m, 'ñ', "ni"@) != m <==> m.contains('ñ'),
        reemplazado(a, ' ', "_"@) != a <==> a.contains(' '),
{
    reveal_strlit("ni");
    reveal_strlit("_");
    assert(!"_"@.contains(' '));
    lema_reemplazo_crece(m, 'ñ', "ni"@);
    lema_reemplazo_crece(a, ' ', "_"@);
    if !m.contains('ñ') {
        lema_reemplazado_igual(m, 'ñ', "ni"@);
    }
    if !a.contains(' ') {
        lema_reemplazado_igual(a, ' ', "_"@);
    }
}

proof fn lema_lista_de_avisos(h: Seq<bool>, m: Seq<Seq<char>>)
    requires
        h.len() == 7,
        m.len() == 7,
    ensures
        avisos(h, m) == aviso(h[0], m[0]) + (aviso(h[1], m[1]) + aviso(h[2], m[2]) + aviso(
            h[3],
            m[3],
        ) + aviso(h[4], m[4]) + aviso(h[5], m[5]) + aviso(h[6], m[6])),
{
    reveal_with_fuel(avisos, 8);
    assert(avisos(h, m) =~= aviso(h[0], m[0]) + (aviso(h[1], m[1]) + aviso(h[2], m[2]) + aviso(
        h[3],
        m[3],
    ) + aviso(h[4], m[4]) + aviso(h[5], m[5]) + aviso(h[6], m[6])));
}

proof fn lema_bordes_si_cambia(c: Seq<char>)
    ensures
        recortada(c) != c <==> c.len() > 0 && (es_blanco(c[0]) || es_blanco(c.last())),
{
    let (a, b) = recortar_los_bordes(c);
}

proof fn lema_especiales_si_cambia(w: Seq<char>)
    ensures
        w != sin_especiales(w) <==> exists|i: int|
            0 <= i < w.len() && !('a' <= #[trigger] w[i] <= 'z' || '0' <= w[i] <= '9' || w[i]
                == '_'),
{
    let r = sin_especiales(w);
    assert(r.len() == w.len());
    assert(forall|i: int|
        0 <= i < w.len() ==> #[trigger] r[i] == if es_alfanumerico(w[i]) {
            w[i]
        } else {
            '_'
        });
    if forall|i: int|
        0 <= i < w.len() ==> ('a' <= #[trigger] w[i] <= 'z' || '0' <= w[i] <= '9' || w[i] == '_') {
        assert(r =~= w);
    } else {
        let i = choose|i: int|
            0 <= i < w.len() && !('a' <= #[trigger] w[i] <= 'z' || '0' <= w[i] <= '9' || w[i]
                == '_');
        assert(r[i] != w[i]);
    }
}

/// The suggestion comes of the text in seven steps: no white space around it, lower case, `ni` in
/// place of `ñ`, no combining marks once decomposed, underscores in place of spaces, no words that a
/// name leaves out, and an underscore in place of each character that is not a letter or a digit.
pub proof fn pasos_de_una_validacion(v: ValidacionCadena, c: Seq<char>)
    requires
        v.validada(c),
    ensures
        v.cadena@ == c,
        v.incidencia <==> v.sugerido@ == c,
        v.incidencia <==> v.errores@.len() == 0,
        ({
            let n = reemplazado(minusculas(recortada(c)), 'ñ', "ni"@);
            let w = sin_articulos(reemplazado(sin_marcas(descomposicion(n)), ' ', "_"@));
            &&& v.sugerido@.len() == w.len()
            &&& forall|i: int|
                0 <= i < w.len() ==> #[trigger] v.sugerido@[i] == if 'a' <= w[i] <= 'z' || '0'
                    <= w[i] <= '9' {
                    w[i]
                } else {
                    '_'
                }
        }),
{
}

/// No word that a name leaves out is a word of a suggestion for a text without other special
/// characters.
pub proof fn sin_palabras_que_sobran(v: ValidacionCadena, c: Seq<char>, w: Seq<char>)
    requires
        v.validada(c),
        !vistas(v.errores@).contains("Incluye otros carácteres especiales"@),
        prohibidas().contains(w),
        w.len() > 0,
    ensures
        !partes(v.sugerido@, '_').contains(w),
{
    let d = descompuesta(c);
    let s = reemplazado(sin_marcas(d), ' ', "_"@);
    if sin_articulos(s) != sin_especiales(sin_articulos(s)) {
        lema_aviso_de_especiales(c, recortada(c), en_minusculas(c), d);
    }
    assert(v.sugerido@ == sin_articulos(s));
    lema_sin_articulos_limpio(s);
    if v.sugerido@.len() == 0 {
        assert(v.sugerido@ =~= Seq::empty());
        assert(partes(v.sugerido@, '_') =~= seq![Seq::empty()]);
    }
}

}
