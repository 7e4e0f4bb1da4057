//! Operations on text, each stated over the sequence of characters that a string holds.
use vstd::prelude::*;

verus! {

/// `String::push` appends one character.
pub assume_specification[ String::push ](s: &mut String, c: char)
    ensures
        final(s)@ == old(s)@.push(c),
;

/// `str::eq` holds exactly when the two strings hold the same characters.
pub assume_specification[ <str as PartialEq>::eq ](a: &str, b: &str) -> (r: bool)
    ensures
        r == (a@ == b@),
;

/// `s` with every `buscado` written as `por`.
pub open spec fn reemplazado(s: Seq<char>, buscado: char, por: Seq<char>) -> Seq<char>
    decreases s.len(),
{
    if s.len() == 0 {
        s
    } else {
        reemplazado(s.drop_last(), buscado, por) + (if s.last() == buscado {
            por
        } else {
            seq![s.last()]
        })
    }
}

/// Writes every `buscado` of `s` as `por`.
pub fn reemplazar(s: &str, buscado: char, por: &str) -> (r: String)
    ensures
        r@ == reemplazado(s@, buscado, por@),
{
    let mut r = String::new();
    for c in it: s.chars()
        invariant
            it.seq() == s@,
            r@ == reemplazado(s@.take(it.index() as int), buscado, por@),
    {
        proof {
            let n = it.index() as int;
            assert(s@.take(n + 1).drop_last() =~= s@.take(n));
        }
        if c == buscado {
            r.append(por);
        } else {
            r.push(c);
        }
    }
    assert(s@.take(s@.len() as int) =~= s@);
    r
}

/// The characters of `s`, in order.
pub fn caracteres(s: &str) -> (v: Vec<char>)
    ensures
        v@ == s@,
{
    let mut v: Vec<char> = Vec::new();
    for c in it: s.chars()
        invariant
            it.seq() == s@,
            v@ == s@.take(it.index() as int),
    {
        v.push(c);
    }
    v
}

/// The pieces of `s` between one `sep` and the next. There is always one more of them than there
/// are separators, so the empty text has one piece, which is empty.
pub open spec fn partes(s: Seq<char>, sep: char) -> Seq<Seq<char>>
    decreases s.len(),
{
    if s.len() == 0 {
        seq![Seq::empty()]
    } else {
        let previas = partes(s.drop_last(), sep);
        if s.last() == sep {
            previas.push(Seq::empty())
        } else {
            previas.drop_last().push(previas.last().push(s.last()))
        }
    }
}

/// The texts of `v`.
pub open spec fn vistas(v: Seq<String>) -> Seq<Seq<char>> {
    v.map_values(|s: String| s@)
}

/// Splits `s` at every `sep`.
pub fn partir(s: &str, sep: char) -> (v: Vec<String>)
    ensures
        vistas(v@) == partes(s@, sep),
{
    let mut v: Vec<String> = Vec::new();
    let mut actual = String::new();
    assert(vistas(v@).push(actual@) =~= partes(s@.take(0), sep));
    for c in it: s.chars()
        invariant
            it.seq() == s@,
            vistas(v@).push(actual@) == partes(s@.take(it.index() as int), sep),
    {
        let ghost n = it.index() as int;
        let ghost previas = vistas(v@).push(actual@);
        proof {
            assert(s@.take(n + 1).drop_last() =~= s@.take(n));
            assert(previas.drop_last() =~= vistas(v@));
        }
        if c == sep {
            v.push(actual);
            actual = String::new();
            assert(vistas(v@) =~= previas);
        } else {
            actual.push(c);
        }
    }
    proof {
        assert(s@.take(s@.len() as int) =~= s@);
    }
    let ghost previas = vistas(v@).push(actual@);
    v.push(actual);
    assert(vistas(v@) =~= previas);
    v
}

/// The pieces of `v` in order, with `sep` between one and the next.
pub open spec fn unido(v: Seq<Seq<char>>, sep: char) -> Seq<char>
    decreases v.len(),
{
    if v.len() == 0 {
        Seq::empty()
    } else if v.len() == 1 {
        v[0]
    } else {
        unido(v.drop_last(), sep).push(sep) + v.last()
    }
}

/// Joins the pieces of `v` with `sep`.
pub fn unir(v: &Vec<String>, sep: char) -> (r: String)
    ensures
        r@ == unido(vistas(v@), sep),
{
    let mut r = String::new();
    for i in 0..v.len()
        invariant
            r@ == unido(vistas(v@).take(i as int), sep),
    {
        proof {
            assert(vistas(v@).take(i + 1).drop_last() =~= vistas(v@).take(i as int));
        }
        if i > 0 {
            r.push(sep);
        }
        r.append(v[i].as_str());
        assert(r@ =~= unido(vistas(v@).take(i + 1), sep));
    }
    assert(vistas(v@).take(v@.len() as int) =~= vistas(v@));
    r
}

/// Splitting a text and joining the pieces with the same separator gives the text back.
pub proof fn unir_deshace_partir(s: Seq<char>, sep: char)
    ensures
        unido(partes(s, sep), sep) == s,
        partes(s, sep).len() >= 1,
    decreases s.len(),
{
    if s.len() > 0 {
        let previas = partes(s.drop_last(), sep);
        unir_deshace_partir(s.drop_last(), sep);
        let todas = partes(s, sep);
        assert(s =~= s.drop_last().push(s.last()));
        if s.last() == sep {
            assert(todas.drop_last() =~= previas);
            assert(unido(todas, sep) =~= s);
        } else {
            assert(todas.drop_last() =~= previas.drop_last());
            assert(todas.last() == previas.last().push(s.last()));
            assert(unido(todas, sep) =~= unido(previas, sep).push(s.last()));
        }
    }
}

proof fn lema_partes_al_final(s: Seq<char>, t: Seq<char>, sep: char)
    requires
        !t.contains(sep),
    ensures
        partes(s.push(sep) + t, sep) == partes(s, sep).push(t),
    decreases t.len(),
{
    let todo = s.push(sep) + t;
    if t.len() == 0 {
        assert(todo =~= s.push(sep));
        assert(todo.drop_last() =~= s);
        assert(t =~= Seq::empty());
    } else {
        let u = t.drop_last();
        assert(t[t.len() - 1] == t.last());
        assert(!u.contains(sep)) by {
            if u.contains(sep) {
                let k = choose|k: int| 0 <= k < u.len() && u[k] == sep;
                assert(t[k] == sep);
            }
        }
        lema_partes_al_final(s, u, sep);
        assert(todo.drop_last() =~= s.push(sep) + u);
        assert(t =~= u.push(t.last()));
        assert(partes(s, sep).push(u).drop_last() =~= partes(s, sep));
    }
}

proof fn lema_una_parte(s: Seq<char>, sep: char)
    requires
        !s.contains(sep),
    ensures
        partes(s, sep) == seq![s],
    decreases s.len(),
{
    if s.len() > 0 {
        let u = s.drop_last();
        assert(s[s.len() - 1] == s.last());
        assert(!u.contains(sep)) by {
            if u.contains(sep) {
                let k = choose|k: int| 0 <= k < u.len() && u[k] == sep;
                assert(s[k] == sep);
            }
        }
        lema_una_parte(u, sep);
        assert(s =~= u.push(s.last()));
    } else {
        assert(s =~= Seq::empty());
    }
}

/// Joining pieces that do not hold the separator and splitting the text gives the pieces back.
pub proof fn partir_deshace_unir(v: Seq<Seq<char>>, sep: char)
    requires
        v.len() >= 1,
        forall|k: int| 0 <= k < v.len() ==> !(#[trigger] v[k]).contains(sep),
    ensures
        partes(unido(v, sep), sep) == v,
    decreases v.len(),
{
    if v.len() == 1 {
        lema_una_parte(v[0], sep);
        assert(v =~= seq![v[0]]);
    } else {
        let w = v.drop_last();
        assert forall|k: int| 0 <= k < w.len() implies !(#[trigger] w[k]).contains(sep) by {
            assert(!v[k].contains(sep));
        }
        partir_deshace_unir(w, sep);
        assert(!v[v.len() - 1].contains(sep));
        lema_partes_al_final(unido(w, sep), v.last(), sep);
        assert(v =~= w.push(v.last()));
    }
}

/// No piece that a text is split into holds the separator.
pub proof fn partes_sin_separador(s: Seq<char>, sep: char)
    ensures
        forall|k: int|
            0 <= k < partes(s, sep).len() ==> !(#[trigger] partes(s, sep)[k]).contains(sep),
    decreases s.len(),
{
    if s.len() > 0 {
        let previas = partes(s.drop_last(), sep);
        partes_sin_separador(s.drop_last(), sep);
        unir_deshace_partir(s.drop_last(), sep);
        assert forall|k: int| 0 <= k < partes(s, sep).len() implies !(#[trigger] partes(
            s,
            sep,
        )[k]).contains(sep) by {
            if k < previas.len() {
                assert(!previas[k].contains(sep));
            }
            let p = partes(s, sep)[k];
            if p.contains(sep) {
                let j = choose|j: int| 0 <= j < p.len() && p[j] == sep;
                assert(previas[k][j] == sep);
            }
        }
    }
}

/// `s` without the occurrences of `patron` that a reading from the left meets, none overlapping
/// the one before.
pub open spec fn sin_patron(s: Seq<char>, patron: Seq<char>) -> Seq<char>
    decreases s.len(),
{
    if patron.len() == 0 || s.len() < patron.len() {
        s
    } else if s.take(patron.len() as int) == patron {
        sin_patron(s.skip(patron.len() as int), patron)
    } else {
        seq![s[0]] + sin_patron(s.skip(1), patron)
    }
}

/// Whether `patron` stands in `s` from position `i` on.
pub open spec fn aparece_en(s: Seq<char>, patron: Seq<char>, i: int) -> bool {
    0 <= i && i + patron.len() <= s.len() && s.subrange(i, i + patron.len()) == patron
}

/// Whether `patron` stands somewhere in `s`.
pub open spec fn contiene_patron(s: Seq<char>, patron: Seq<char>) -> bool {
    exists|i: int| aparece_en(s, patron, i)
}

/// Tells whether `patron` stands in `s` from position `i` on.
fn coincide(s: &Vec<char>, patron: &Vec<char>, i: usize) -> (r: bool)
    requires
        i <= s@.len(),
    ensures
        r == aparece_en(s@, patron@, i as int),
{
    if patron.len() > s.len() - i {
        return false;
    }
    for k in 0..patron.len()
        invariant
            i + patron@.len() <= s.len(),
            forall|j: int| 0 <= j < k ==> s@[i + j] == patron@[j],
    {
        if s[i + k] != patron[k] {
            assert(s@.subrange(i as int, i + patron@.len())[k as int] != patron@[k as int]);
            return false;
        }
    }
    assert(s@.subrange(i as int, i + patron@.len()) =~= patron@);
    true
}

/// Takes every `patron` out of `s`, reading from the left.
pub fn quitar(s: &str, patron: &str) -> (r: String)
    ensures
        r@ == sin_patron(s@, patron@),
{
    let cs = caracteres(s);
    let p = caracteres(patron);
    let mut r = String::new();
    let mut i: usize = 0;
    assert(s@.skip(0) =~= s@);
    while i < cs.len()
        invariant
            i <= cs@.len(),
            cs@ == s@,
            p@ == patron@,
            r@ + sin_patron(s@.skip(i as int), patron@) == sin_patron(s@, patron@),
        decreases cs@.len() - i,
    {
        let ghost resto = s@.skip(i as int);
        if p.len() > 0 && coincide(&cs, &p, i) {
            proof {
                assert(resto.take(p@.len() as int) =~= s@.subrange(i as int, i + p@.len()));
                assert(resto.skip(p@.len() as int) =~= s@.skip(i + p@.len()));
            }
            i = i + p.len();
        } else {
            proof {
                if p@.len() > 0 && resto.len() >= p@.len() {
                    assert(resto.take(p@.len() as int) =~= s@.subrange(i as int, i + p@.len()));
                } else {
                    assert(resto =~= seq![resto[0]] + resto.skip(1));
                }
                assert(resto.skip(1) =~= s@.skip(i + 1));
                assert(r@.push(cs@[i as int]) + sin_patron(s@.skip(i + 1), patron@) =~= r@ + (
                seq![resto[0]] + sin_patron(resto.skip(1), patron@)));
            }
            r.push(cs[i]);
            i = i + 1;
        }
    }
    assert(r@ + sin_patron(s@.skip(i as int), patron@) =~= r@);
    r
}

/// Tells whether `patron` stands somewhere in `s`.
pub fn contiene(s: &str, patron: &str) -> (r: bool)
    ensures
        r == contiene_patron(s@, patron@),
{
    let cs = caracteres(s);
    let p = caracteres(patron);
    let mut i: usize = 0;
    while i < cs.len()
        invariant
            i <= cs@.len(),
            cs@ == s@,
            p@ == patron@,
            forall|j: int| 0 <= j < i ==> !aparece_en(s@, patron@, j),
        decreases cs@.len() - i,
    {
        if coincide(&cs, &p, i) {
            return true;
        }
        i = i + 1;
    }
    coincide(&cs, &p, i)
}

/// The texts of a list of strings are as many as the strings, in the same order.
pub proof fn textos_de_cadenas(v: Seq<String>, k: int)
    ensures
        vistas(v).len() == v.len(),
        0 <= k < v.len() ==> vistas(v)[k] == v[k]@,
{
}

/// Replacing goes character by character: nothing comes of nothing, the character that is looked for
/// becomes `por`, any other one stays, and what comes of two texts in a row is what comes of each.
pub proof fn reemplazar_por_caracteres(
    a: Seq<char>,
    b: Seq<char>,
    c: char,
    buscado: char,
    por: Seq<char>,
)
    ensures
        reemplazado(Seq::empty(), buscado, por) == Seq::<char>::empty(),
        reemplazado(seq![buscado], buscado, por) == por,
        c != buscado ==> reemplazado(seq![c], buscado, por) == seq![c],
        reemplazado(a + b, buscado, por) == reemplazado(a, buscado, por) + reemplazado(
            b,
            buscado,
            por,
        ),
    decreases b.len(),
{
    reveal_with_fuel(reemplazado, 2);
    assert(seq![c].drop_last() =~= Seq::empty());
    assert(seq![buscado].drop_last() =~= Seq::empty());
    assert(reemplazado(seq![buscado], buscado, por) =~= por);
    assert(c != buscado ==> reemplazado(seq![c], buscado, por) =~= seq![c]);
    if b.len() > 0 {
        reemplazar_por_caracteres(a, b.drop_last(), c, buscado, por);
        assert((a + b).drop_last() =~= a + b.drop_last());
        assert(reemplazado(a + b, buscado, por) =~= reemplazado(a, buscado, por) + reemplazado(
            b,
            buscado,
            por,
        ));
    } else {
        assert(a + b =~= a);
        assert(reemplazado(a, buscado, por) + b =~= reemplazado(a, buscado, por));
    }
}

/// Joining no pieces gives nothing, joining one gives that one, and joining two lists of pieces in a
/// row gives what comes of each with one separator between.
pub proof fn unir_por_piezas(v: Seq<Seq<char>>, w: Seq<Seq<char>>, p: Seq<char>, sep: char)
    requires
        v.len() > 0,
        w.len() > 0,
    ensures
        unido(Seq::empty(), sep) == Seq::<char>::empty(),
        unido(seq![p], sep) == p,
        unido(v + w, sep) == unido(v, sep) + seq![sep] + unido(w, sep),
    decreases w.len(),
{
    assert((v + w).drop_last() =~= v + w.drop_last());
    assert((v + w).last() == w.last());
    if w.len() > 1 {
        unir_por_piezas(v, w.drop_last(), p, sep);
        assert(unido(v + w, sep) =~= unido(v, sep) + seq![sep] + unido(w, sep));
    } else {
        assert(v + w.drop_last() =~= v);
        assert(unido(v + w, sep) =~= unido(v, sep) + seq![sep] + unido(w, sep));
    }
}

/// The pieces of a text are those, and no other, that do not hold the separator and that joined with
/// it make up the text.
pub proof fn piezas_de_un_texto(s: Seq<char>, v: Seq<Seq<char>>, sep: char)
    requires
        v.len() >= 1,
        forall|k: int| 0 <= k < v.len() ==> !(#[trigger] v[k]).contains(sep),
        unido(v, sep) == s,
    ensures
        partes(s, sep) == v,
{
    partir_deshace_unir(v, sep);
}

/// A text without the pattern stays as it is. Otherwise what stands before the first time that the
/// pattern occurs stays, that occurrence goes, and the rest is treated in the same way.
pub proof fn quitar_la_primera_vez(s: Seq<char>, patron: Seq<char>, i: int)
    requires
        patron.len() > 0,
    ensures
        (forall|j: int|
            0 <= j && j + patron.len() <= s.len() ==> #[trigger] s.subrange(j, j + patron.len())
                != patron) ==> sin_patron(s, patron) == s,
        0 <= i && i + patron.len() <= s.len() && s.subrange(i, i + patron.len()) == patron && (
        forall|j: int| 0 <= j < i ==> #[trigger] s.subrange(j, j + patron.len()) != patron)
            ==> sin_patron(s, patron) == s.take(i) + sin_patron(s.skip(i + patron.len()), patron),
    decreases s.len(),
{
    let n = patron.len() as int;
    if s.len() >= n {
        let r = s.skip(1);
        assert(s.take(n) =~= s.subrange(0, n));
        assert(s =~= seq![s[0]] + r);
        quitar_la_primera_vez(r, patron, i - 1);
        assert forall|j: int| 0 <= j && j + n <= r.len() implies #[trigger] r.subrange(j, j + n)
            == s.subrange(j + 1, j + 1 + n) by {
            assert(r.subrange(j, j + n) =~= s.subrange(j + 1, j + 1 + n));
        }
        if i == 0 {
            assert(s.take(0) + sin_patron(s.skip(n), patron) =~= sin_patron(s.skip(n), patron));
        } else if 0 < i && i + n <= s.len() {
            assert(r.skip(i - 1 + n) =~= s.skip(i + n));
            assert(s.take(i) =~= seq![s[0]] + r.take(i - 1));
            assert(r.subrange(i - 1, i - 1 + n) =~= s.subrange(i, i + n));
            assert(s.take(i) + sin_patron(s.skip(i + n), patron) =~= seq![s[0]] + (r.take(i - 1)
                + sin_patron(s.skip(i + n), patron)));
        }
    }
}

/// A text holds a pattern exactly when it is something, then the pattern, then something.
pub proof fn contener_es_rodear(s: Seq<char>, patron: Seq<char>, a: Seq<char>, b: Seq<char>)
    ensures
        contiene_patron(a + patron + b, patron),
        contiene_patron(s, patron) ==> exists|x: Seq<char>, y: Seq<char>|
            s == #[trigger] (x + patron + y),
{
    let t = a + patron + b;
    assert(t.subrange(a.len() as int, (a.len() + patron.len()) as int) =~= patron);
    assert(aparece_en(t, patron, a.len() as int));
    if contiene_patron(s, patron) {
        let i = choose|i: int| aparece_en(s, patron, i);
        assert(s =~= s.take(i) + patron + s.skip(i + patron.len())) by {
            assert(s.subrange(i, i + patron.len()) == patron);
            assert forall|k: int| 0 <= k < patron.len() implies s[i + k] == #[trigger] patron[k] by {
                assert(s.subrange(i, i + patron.len())[k] == patron[k]);
            }
        }
    }
}

}
