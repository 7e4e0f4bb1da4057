//! The characters of a text that hint at a damaged file, and the lines that hold them.
use crate::texto::partes;
use vstd::prelude::*;

verus! {

/// A character that hints at damage, and the numbers of the lines that hold it.
#[derive(Debug)]
pub struct CaracterCorrupto {
    pub caracter: String,
    pub filas: Vec<u64>,
}

/// Letters and digits of ASCII, white space and the usual punctuation.
pub open spec fn es_normal(c: char) -> bool {
    ||| 'a' <= c <= 'z'
    ||| 'A' <= c <= 'Z'
    ||| '0' <= c <= '9'
    ||| c == '\t' || c == '\n' || c == '\r' || c == ' '
    ||| c == '.' || c == ',' || c == ';' || c == ':' || c == '(' || c == ')' || c == '"'
    ||| c == '\'' || c == '¿' || c == '?' || c == '¡' || c == '!' || c == '-' || c == '_'
    ||| c == '/'
}

/// Other characters that occur in texts in Spanish.
pub open spec fn es_tipico(c: char) -> bool {
    ||| c == 'á' || c == 'é' || c == 'í' || c == 'ó' || c == 'ú'
    ||| c == 'Á' || c == 'É' || c == 'Í' || c == 'Ó' || c == 'Ú'
    ||| c == 'ñ' || c == 'Ñ' || c == 'ü' || c == 'Ü' || c == '“' || c == '”'
    ||| c == '%' || c == '°' || c == 'º' || c == 'ª' || c == '€' || c == '$'
}

/// Whether `c` hints at a damaged file.
pub open spec fn es_corrupto(c: char) -> bool {
    !es_normal(c) && !es_tipico(c)
}

/// Tells whether `c` hints at a damaged file.
pub fn es_caracter_corrupto(c: char) -> (r: bool)
    ensures
        r == es_corrupto(c),
{
    let code = c as u32;
    // The mark that a decoder leaves in place of what it cannot read.
    if c == '\u{FFFD}' {
        return true;
    }
    // Control characters, apart from the tab and the ends of lines.
    if code < 32 && code != 9 && code != 10 && code != 13 {
        return true;
    }
    if code == 127 {
        return true;
    }
    let normal = match c {
        'a'..='z' | 'A'..='Z' | '0'..='9' => true,
        '\t' | '\n' | '\r' | ' ' => true,
        '.' | ',' | ';' | ':' | '(' | ')' | '"' | '\'' => true,
        '¿' | '?' | '¡' | '!' | '-' | '_' | '/' => true,
        _ => false,
    };
    if normal {
        return false;
    }
    let tipico = match c {
        'á' | 'é' | 'í' | 'ó' | 'ú' | 'Á' | 'É' | 'Í' | 'Ó' | 'Ú' => true,
        'ñ' | 'Ñ' | 'ü' | 'Ü' | '“' | '”' | '%' | '°' | 'º' | 'ª' | '€' | '$' => true,
        _ => false,
    };
    !tipico
}

/// Control characters hint at damage, except for the tab and the ends of lines; so do the delete
/// character and the mark of what could not be decoded.
pub proof fn controles_son_corruptos(c: char)
    requires
        c < ' ' && c != '\t' && c != '\n' && c != '\r' || c == '\u{7f}' || c == '\u{fffd}',
    ensures
        es_corrupto(c),
{
}

/// `s` without the carriage return at its end, if it has one there.
pub open spec fn sin_retorno(s: Seq<char>) -> Seq<char> {
    if s.len() > 0 && s.last() == '\r' {
        s.drop_last()
    } else {
        s
    }
}

/// The lines of `s`. A line ends in a line feed, or in a carriage return and a line feed, neither
/// of which belongs to it. What follows the last line feed is a line too, unless it is empty.
pub open spec fn lineas(s: Seq<char>) -> Seq<Seq<char>> {
    let trozos = partes(s, '\n');
    let ultimo = trozos.last();
    let terminadas = trozos.drop_last().map_values(|l: Seq<char>| sin_retorno(l));
    if ultimo.len() == 0 {
        terminadas
    } else {
        terminadas.push(ultimo)
    }
}

/// Whether the line of `s` with the number `fila` holds `c`. The first line has the number one.
pub open spec fn en_fila(s: Seq<char>, c: char, fila: int) -> bool {
    1 <= fila <= lineas(s).len() && lineas(s)[fila - 1].contains(c)
}

/// Whether the numbers of `v` grow from one to the next.
pub open spec fn crecen(v: Seq<u64>) -> bool {
    forall|i: int, j: int| 0 <= i < j < v.len() ==> v[i] < v[j]
}

/// A character and the numbers of the lines that hold it.
struct Entrada {
    caracter: char,
    filas: Vec<u64>,
}

/// Whether the entries are in the order of their characters, each with the numbers of one line or
/// more, in order and none past `tope`.
spec fn ordenadas(m: Seq<Entrada>, tope: int) -> bool {
    &&& forall|i: int, j: int| 0 <= i < j < m.len() ==> m[i].caracter < m[j].caracter
    &&& forall|i: int|
        0 <= i < m.len() ==> crecen((#[trigger] m[i]).filas@) && m[i].filas@.len() > 0
            && m[i].filas@.last() <= tope
}

/// Whether the entries say that the line `f` holds `c`.
spec fn anotado(m: Seq<Entrada>, c: char, f: u64) -> bool {
    exists|i: int| 0 <= i < m.len() && (#[trigger] m[i]).caracter == c && m[i].filas@.contains(f)
}

/// Notes that the line `fila` holds `c`.
fn anotar(m: &mut Vec<Entrada>, c: char, fila: u64)
    requires
        ordenadas(old(m)@, fila as int),
    ensures
        ordenadas(final(m)@, fila as int),
        forall|d: char, f: u64| #[trigger]
            anotado(final(m)@, d, f) <==> anotado(old(m)@, d, f) || (d == c && f == fila),
{
    let mut i: usize = 0;
    while i < m.len() && m[i].caracter < c
        invariant
            i <= m@.len(),
            m@ == old(m)@,
            forall|j: int| 0 <= j < i ==> (#[trigger] m@[j]).caracter < c,
        decreases m@.len() - i,
    {
        i = i + 1;
    }
    let ghost antes = m@;
    if i < m.len() && m[i].caracter == c {
        let n = m[i].filas.len();
        let ghost previas = m@[i as int].filas@;
        if m[i].filas[n - 1] < fila {
            m[i].filas.push(fila);
            proof {
                assert(m@[i as int].filas@ == previas.push(fila));
                assert forall|d: char, f: u64| #[trigger]
                    anotado(m@, d, f) <==> anotado(antes, d, f) || (d == c && f == fila) by {
                    lema_anotar_en(antes, m@, i as int, fila, d, f);
                }
            }
        } else {
            proof {
                assert(previas[n - 1] == fila);
                assert(previas.contains(fila));
                assert(anotado(antes, c, fila));
            }
        }
    } else {
        let mut filas: Vec<u64> = Vec::new();
        filas.push(fila);
        m.insert(i, Entrada { caracter: c, filas });
        proof {
            assert(m@ == antes.insert(i as int, m@[i as int]));
            assert forall|d: char, f: u64| #[trigger]
                anotado(m@, d, f) <==> anotado(antes, d, f) || (d == c && f == fila) by {
                lema_insertar_en(antes, m@, i as int, c, fila, d, f);
            }
        }
    }
}

proof fn lema_anotar_en(
    antes: Seq<Entrada>,
    ahora: Seq<Entrada>,
    i: int,
    fila: u64,
    d: char,
    f: u64,
)
    requires
        0 <= i < antes.len() == ahora.len(),
        ahora[i].caracter == antes[i].caracter,
        ahora[i].filas@ == antes[i].filas@.push(fila),
        forall|k: int| 0 <= k < antes.len() && k != i ==> ahora[k] == antes[k],
    ensures
        anotado(ahora, d, f) <==> anotado(antes, d, f) || (d == antes[i].caracter && f == fila),
{
    let v = antes[i].filas@;
    assert(v.push(fila)[v.len() as int] == fila);
    if anotado(antes, d, f) {
        let k = choose|k: int|
            0 <= k < antes.len() && (#[trigger] antes[k]).caracter == d && antes[k].filas@.contains(
                f,
            );
        if k == i {
            let j = choose|j: int| 0 <= j < v.len() && v[j] == f;
            assert(v.push(fila)[j] == f);
        }
        assert(ahora[k].filas@.contains(f));
    }
    if d == antes[i].caracter && f == fila {
        assert(ahora[i].filas@.contains(f));
    }
    if anotado(ahora, d, f) {
        let k = choose|k: int|
            0 <= k < ahora.len() && (#[trigger] ahora[k]).caracter == d && ahora[k].filas@.contains(
                f,
            );
        if k == i {
            let j = choose|j: int| 0 <= j < ahora[i].filas@.len() && ahora[i].filas@[j] == f;
            if j < v.len() {
                assert(v[j] == f);
                assert(antes[i].filas@.contains(f));
            }
        } else {
            assert(antes[k].filas@.contains(f));
        }
    }
}

proof fn lema_insertar_en(
    antes: Seq<Entrada>,
    ahora: Seq<Entrada>,
    i: int,
    c: char,
    fila: u64,
    d: char,
    f: u64,
)
    requires
        0 <= i <= antes.len(),
        ahora == antes.insert(i, ahora[i]),
        ahora[i].caracter == c,
        ahora[i].filas@ == seq![fila],
    ensures
        anotado(ahora, d, f) <==> anotado(antes, d, f) || (d == c && f == fila),
{
    if anotado(antes, d, f) {
        let k = choose|k: int|
            0 <= k < antes.len() && (#[trigger] antes[k]).caracter == d && antes[k].filas@.contains(
                f,
            );
        let k2 = if k < i { k } else { k + 1 };
        assert(ahora[k2] == antes[k]);
    }
    if d == c && f == fila {
        assert(ahora[i].filas@[0] == f);
        assert(ahora[i].filas@.contains(f));
    }
    if anotado(ahora, d, f) {
        let k = choose|k: int|
            0 <= k < ahora.len() && (#[trigger] ahora[k]).caracter == d && ahora[k].filas@.contains(
                f,
            );
        if k < i {
            assert(ahora[k] == antes[k]);
        } else if k > i {
            assert(ahora[k] == antes[k - 1]);
        }
    }
}

/// Whether the entries of `r` are about one character each, in the order of those characters, with
/// the numbers of one line or more each, in order.
pub open spec fn en_orden(r: Seq<CaracterCorrupto>) -> bool {
    &&& forall|i: int|
        0 <= i < r.len() ==> (#[trigger] r[i]).caracter@.len() == 1 && r[i].filas@.len() > 0
            && crecen(r[i].filas@)
    &&& forall|i: int, j: int| 0 <= i < j < r.len() ==> r[i].caracter@[0] < r[j].caracter@[0]
}

/// Whether an entry of `r` says that the line `f` holds `c`.
pub open spec fn registrado(r: Seq<CaracterCorrupto>, c: char, f: u64) -> bool {
    exists|i: int|
        0 <= i < r.len() && (#[trigger] r[i]).caracter@ == seq![c] && r[i].filas@.contains(f)
}

/// Whether `r` is the list of the characters of `texto` that hint at damage, with their lines.
pub open spec fn lista_de_corruptos(r: Seq<CaracterCorrupto>, texto: Seq<char>) -> bool {
    &&& en_orden(r)
    &&& forall|c: char, f: u64| #[trigger]
        registrado(r, c, f) <==> es_corrupto(c) && en_fila(texto, c, f as int)
}

proof fn lema_partes_no_vacias(s: Seq<char>, sep: char)
    ensures
        1 <= partes(s, sep).len() <= s.len() + 1,
    decreases s.len(),
{
    if s.len() > 0 {
        lema_partes_no_vacias(s.drop_last(), sep);
    }
}

/// What the character `ch` at the end of `s` adds to the pieces of `s`.
proof fn lema_otro_caracter(s: Seq<char>, ch: char, c: char, f: int)
    requires
        es_corrupto(c),
    ensures
        ({
            let antes = partes(s, '\n');
            let ahora = partes(s.push(ch), '\n');
            (1 <= f <= ahora.len() && ahora[f - 1].contains(c)) <==> ((1 <= f <= antes.len()
                && antes[f - 1].contains(c)) || (ch == c && f == antes.len()))
        }),
{
    let antes = partes(s, '\n');
    let ahora = partes(s.push(ch), '\n');
    lema_partes_no_vacias(s, '\n');
    assert(s.push(ch).drop_last() =~= s);
    if ch == '\n' {
        assert(ahora == antes.push(Seq::empty()));
    } else {
        assert(ahora == antes.drop_last().push(antes.last().push(ch)));
        if f == antes.len() {
            let v = antes.last();
            assert(v.push(ch)[v.len() as int] == ch);
            if v.contains(c) {
                let k = choose|k: int| 0 <= k < v.len() && v[k] == c;
                assert(v.push(ch)[k] == c);
            }
            if v.push(ch).contains(c) && ch != c {
                let k = choose|k: int| 0 <= k < v.len() + 1 && v.push(ch)[k] == c;
                assert(v[k] == c);
            }
        }
    }
}

/// A line and the piece that it stands in hold the same characters that hint at damage.
proof fn lema_lineas_y_partes(s: Seq<char>, c: char, f: int)
    requires
        es_corrupto(c),
    ensures
        en_fila(s, c, f) <==> 1 <= f <= partes(s, '\n').len() && partes(s, '\n')[f - 1].contains(c),
{
    let trozos = partes(s, '\n');
    lema_partes_no_vacias(s, '\n');
    if 1 <= f < trozos.len() {
        let l = trozos[f - 1];
        assert(lineas(s)[f - 1] == sin_retorno(l));
        if l.contains(c) {
            let k = choose|k: int| 0 <= k < l.len() && l[k] == c;
            assert(sin_retorno(l)[k] == c);
        }
        if sin_retorno(l).contains(c) {
            let k = choose|k: int| 0 <= k < sin_retorno(l).len() && sin_retorno(l)[k] == c;
            assert(l[k] == c);
        }
    } else if f == trozos.len() && trozos.last().len() > 0 {
        assert(lineas(s)[f - 1] == trozos[f - 1]);
    }
}

/// Lists the characters of `texto` that hint at damage, with the lines that hold them.
pub fn caracteres_corruptos(texto: &str) -> (r: Vec<CaracterCorrupto>)
    ensures
        lista_de_corruptos(r@, texto@),
{
    let total = texto.unicode_len();
    let mut m: Vec<Entrada> = Vec::new();
    let mut fila: u128 = 1;
    for c in it: texto.chars()
        invariant
            it.seq() == texto@,
            texto@.len() == total,
            fila == partes(texto@.take(it.index() as int), '\n').len(),
            ordenadas(m@, fila as int),
            forall|d: char, f: u64| #[trigger]
                anotado(m@, d, f) <==> es_corrupto(d) && 1 <= f <= fila && partes(
                    texto@.take(it.index() as int),
                    '\n',
                )[f - 1].contains(d),
    {
        let ghost n = it.index() as int;
        let ghost leido = texto@.take(n);
        let ghost antes = m@;
        proof {
            assert(texto@.take(n + 1) =~= leido.push(c));
            lema_partes_no_vacias(leido, '\n');
            lema_partes_no_vacias(leido.push(c), '\n');
            assert(leido.push(c).drop_last() =~= leido);
        }
        let ghost fila_de_c = fila;
        if c == '\n' {
            fila = fila + 1;
        } else if es_caracter_corrupto(c) {
            anotar(&mut m, c, fila as u64);
        }
        proof {
            assert forall|d: char, f: u64| #[trigger]
                anotado(m@, d, f) <==> es_corrupto(d) && 1 <= f <= fila && partes(
                    leido.push(c),
                    '\n',
                )[f - 1].contains(d) by {
                if es_corrupto(d) {
                    lema_otro_caracter(leido, c, d, f as int);
                }
                assert(anotado(antes, d, f) <==> es_corrupto(d) && 1 <= f <= fila_de_c && partes(
                    leido,
                    '\n',
                )[f - 1].contains(d));
            }
        }
    }
    assert(texto@.take(texto@.len() as int) =~= texto@);
    let mut r: Vec<CaracterCorrupto> = Vec::new();
    for i in 0..m.len()
        invariant
            r@.len() == i,
            i <= m@.len(),
            forall|k: int|
                0 <= k < i ==> (#[trigger] r@[k]).caracter@ == seq![m@[k].caracter] && r@[k].filas@
                    == m@[k].filas@,
    {
        let mut caracter = String::new();
        caracter.push(m[i].caracter);
        let filas = m[i].filas.clone();
        assert(filas@ =~= m@[i as int].filas@);
        assert(caracter@ =~= seq![m@[i as int].caracter]);
        r.push(CaracterCorrupto { caracter, filas });
    }
    proof {
        assert forall|c: char, f: u64| #[trigger]
            registrado(r@, c, f) <==> es_corrupto(c) && en_fila(texto@, c, f as int) by {
            if es_corrupto(c) {
                lema_lineas_y_partes(texto@, c, f as int);
            }
            if anotado(m@, c, f) {
                let k = choose|k: int|
                    0 <= k < m@.len() && (#[trigger] m@[k]).caracter == c && m@[k].filas@.contains(
                        f,
                    );
                assert(r@[k].filas@.contains(f));
            }
            if registrado(r@, c, f) {
                let k = choose|k: int|
                    0 <= k < r@.len() && (#[trigger] r@[k]).caracter@ == seq![c]
                        && r@[k].filas@.contains(f);
                assert(seq![m@[k].caracter][0] == seq![c][0]);
                assert(m@[k].filas@.contains(f));
            }
        }
        assert forall|i: int| 0 <= i < r@.len() implies (#[trigger] r@[i]).caracter@.len() == 1
            && r@[i].filas@.len() > 0 && crecen(r@[i].filas@) by {
            assert(r@[i].filas@ == m@[i].filas@);
        }
        assert forall|i: int, j: int| 0 <= i < j < r@.len() implies r@[i].caracter@[0]
            < r@[j].caracter@[0] by {
            assert(m@[i].caracter < m@[j].caracter);
        }
    }
    r
}

proof fn lema_esta_en_una_parte(s: Seq<char>, i: int) -> (f: int)
    requires
        0 <= i < s.len(),
        s[i] != '\n',
    ensures
        1 <= f <= partes(s, '\n').len(),
        f <= s.len(),
        partes(s, '\n')[f - 1].contains(s[i]),
    decreases s.len(),
{
    let previas = partes(s.drop_last(), '\n');
    let todas = partes(s, '\n');
    lema_partes_no_vacias(s.drop_last(), '\n');
    if i == s.len() - 1 {
        let f = todas.len() as int;
        assert(todas[f - 1] == previas.last().push(s[i]));
        assert(todas[f - 1][previas.last().len() as int] == s[i]);
        f
    } else {
        assert(s.drop_last()[i] == s[i]);
        let f = lema_esta_en_una_parte(s.drop_last(), i);
        let l = previas[f - 1];
        let k = choose|k: int| 0 <= k < l.len() && l[k] == s[i];
        assert(todas[f - 1][k] == s[i]);
        f
    }
}

proof fn lema_parte_del_texto(s: Seq<char>, c: char, f: int)
    requires
        1 <= f <= partes(s, '\n').len(),
        partes(s, '\n')[f - 1].contains(c),
    ensures
        s.contains(c),
    decreases s.len(),
{
    if s.len() > 0 {
        let previas = partes(s.drop_last(), '\n');
        lema_partes_no_vacias(s.drop_last(), '\n');
        if c == s.last() {
            assert(s[s.len() - 1] == c);
        } else {
            let l = partes(s, '\n')[f - 1];
            let k = choose|k: int| 0 <= k < l.len() && l[k] == c;
            assert(previas[f - 1][k] == c);
            lema_parte_del_texto(s.drop_last(), c, f);
            let j = choose|j: int| 0 <= j < s.drop_last().len() && s.drop_last()[j] == c;
            assert(s[j] == c);
        }
    } else {
        assert(partes(s, '\n')[f - 1].len() == 0);
    }
}

/// The list is empty exactly when no character of the text hints at damage.
pub proof fn lista_vacia_si_no_hay(r: Seq<CaracterCorrupto>, texto: Seq<char>)
    requires
        lista_de_corruptos(r, texto),
        texto.len() <= u64::MAX,
    ensures
        r.len() == 0 <==> (forall|i: int| 0 <= i < texto.len() ==> !es_corrupto(#[trigger] texto[i])),
{
    if r.len() > 0 {
        let c = r[0].caracter@[0];
        let f = r[0].filas@[0];
        assert(r[0].caracter@ =~= seq![c]);
        assert(r[0].filas@.contains(f));
        assert(registrado(r, c, f));
        lema_lineas_y_partes(texto, c, f as int);
        lema_parte_del_texto(texto, c, f as int);
        let i = choose|i: int| 0 <= i < texto.len() && texto[i] == c;
        assert(es_corrupto(texto[i]));
    } else {
        assert forall|i: int| 0 <= i < texto.len() implies !es_corrupto(#[trigger] texto[i]) by {
            if es_corrupto(texto[i]) {
                let f = lema_esta_en_una_parte(texto, i);
                lema_lineas_y_partes(texto, texto[i], f);
                assert(registrado(r, texto[i], f as u64));
            }
        }
    }
}

proof fn lema_puntuacion(c: char)
    ensures
        ".,;:()\"'¿?¡!-_/"@.contains(c) <==> {
            ||| c == '.' || c == ',' || c == ';' || c == ':' || c == '(' || c == ')'
            ||| c == '"' || c == '\'' || c == '¿' || c == '?' || c == '¡' || c == '!'
            ||| c == '-' || c == '_' || c == '/'
        },
{
    reveal_strlit(".,;:()\"'¿?¡!-_/");
    let s = ".,;:()\"'¿?¡!-_/"@;
    assert(s.len() == 15);
    assert(s[0] == '.');
    assert(s[1] == ',');
    assert(s[2] == ';');
    assert(s[3] == ':');
    assert(s[4] == '(');
    assert(s[5] == ')');
    assert(s[6] == '"');
    assert(s[7] == '\'');
    assert(s[8] == '¿');
    assert(s[9] == '?');
    assert(s[10] == '¡');
    assert(s[11] == '!');
    assert(s[12] == '-');
    assert(s[13] == '_');
    assert(s[14] == '/');
    if s.contains(c) {
        let k = choose|k: int| 0 <= k < s.len() && s[k] == c;
        assert(k == 0 || k == 1 || k == 2 || k == 3 || k == 4 || k == 5 || k == 6 || k == 7 || k == 8 || k == 9 || k == 10 || k == 11 || k == 12 || k == 13 || k == 14);
    }
}

proof fn lema_tipicos(c: char)
    ensures
        "áéíóúÁÉÍÓÚñÑüÜ“”\"%°ºª€$"@.contains(c) <==> {
            ||| c == 'á' || c == 'é' || c == 'í' || c == 'ó' || c == 'ú' || c == 'Á'
            ||| c == 'É' || c == 'Í' || c == 'Ó' || c == 'Ú' || c == 'ñ' || c == 'Ñ'
            ||| c == 'ü' || c == 'Ü' || c == '“' || c == '”' || c == '"' || c == '%'
            ||| c == '°' || c == 'º' || c == 'ª' || c == '€' || c == '$'
        },
{
    reveal_strlit("áéíóúÁÉÍÓÚñÑüÜ“”\"%°ºª€$");
    let s = "áéíóúÁÉÍÓÚñÑüÜ“”\"%°ºª€$"@;
    assert(s.len() == 23);
    assert(s[0] == 'á');
    assert(s[1] == 'é');
    assert(s[2] == 'í');
    assert(s[3] == 'ó');
    assert(s[4] == 'ú');
    assert(s[5] == 'Á');
    assert(s[6] == 'É');
    assert(s[7] == 'Í');
    assert(s[8] == 'Ó');
    assert(s[9] == 'Ú');
    assert(s[10] == 'ñ');
    assert(s[11] == 'Ñ');
    assert(s[12] == 'ü');
    assert(s[13] == 'Ü');
    assert(s[14] == '“');
    assert(s[15] == '”');
    assert(s[16] == '"');
    assert(s[17] == '%');
    assert(s[18] == '°');
    assert(s[19] == 'º');
    assert(s[20] == 'ª');
    assert(s[21] == '€');
    assert(s[22] == '$');
    if s.contains(c) {
        let k = choose|k: int| 0 <= k < s.len() && s[k] == c;
        assert(k == 0 || k == 1 || k == 2 || k == 3 || k == 4 || k == 5 || k == 6 || k == 7 || k == 8 || k == 9 || k == 10 || k == 11 || k == 12 || k == 13 || k == 14 || k == 15 || k == 16 || k == 17 || k == 18 || k == 19 || k == 20 || k == 21 || k == 22);
    }
}

/// The characters that hint at damage are all but the letters and digits of ASCII, the tab, the ends
/// of lines, the space, the usual punctuation, and the others that occur in texts in Spanish.
pub proof fn caracteres_sanos(c: char)
    ensures
        es_corrupto(c) <==> !{
            ||| 'a' <= c <= 'z' || 'A' <= c <= 'Z' || '0' <= c <= '9'
            ||| c == '\t' || c == '\n' || c == '\r' || c == ' '
            ||| ".,;:()\"'¿?¡!-_/"@.contains(c)
            ||| "áéíóúÁÉÍÓÚñÑüÜ“”\"%°ºª€$"@.contains(c)
        },
{
    lema_puntuacion(c);
    lema_tipicos(c);
}

/// How many line feeds `s` holds.
pub open spec fn saltos(s: Seq<char>) -> nat {
    s.filter(|x: char| x == '\n').len()
}

/// Line feeds are counted character by character.
pub proof fn contar_saltos(a: Seq<char>, b: Seq<char>, c: char)
    ensures
        saltos(a + b) == saltos(a) + saltos(b),
        saltos(seq![c]) == (if c == '\n' {
            1nat
        } else {
            0
        }),
{
    Seq::filter_distributes_over_add(a, b, |x: char| x == '\n');
    reveal_with_fuel(Seq::filter, 2);
    assert(seq![c].drop_last() =~= Seq::empty());
}

proof fn lema_saltos(s: Seq<char>, c: char, f: int)
    requires
        es_corrupto(c),
    ensures
        partes(s, '\n').len() == saltos(s) + 1,
        (1 <= f <= partes(s, '\n').len() && partes(s, '\n')[f - 1].contains(c)) <==> exists|i: int|
            0 <= i < s.len() && #[trigger] s[i] == c && f == saltos(s.take(i)) + 1,
    decreases s.len(),
{
    reveal(Seq::filter);
    if s.len() > 0 {
        let a = s.drop_last();
        let ch = s.last();
        lema_saltos(a, c, f);
        lema_otro_caracter(a, ch, c, f);
        assert(a.push(ch) =~= s);
        assert(s.take(s.len() - 1) =~= a);
        assert forall|i: int| 0 <= i < a.len() implies #[trigger] s.take(i) == a.take(i) && a[i]
            == s[i] by {
            assert(s.take(i) =~= a.take(i));
        }
        if exists|i: int| 0 <= i < a.len() && #[trigger] a[i] == c && f == saltos(a.take(i)) + 1 {
            let i = choose|i: int|
                0 <= i < a.len() && #[trigger] a[i] == c && f == saltos(a.take(i)) + 1;
            assert(s.take(i) == a.take(i));
            assert(s[i] == c);
        }
        if exists|i: int| 0 <= i < s.len() && #[trigger] s[i] == c && f == saltos(s.take(i)) + 1 {
            let i = choose|i: int|
                0 <= i < s.len() && #[trigger] s[i] == c && f == saltos(s.take(i)) + 1;
            if i < a.len() {
                assert(s.take(i) == a.take(i));
                assert(a[i] == c);
            }
        }
        if ch == c && f == partes(a, '\n').len() {
            assert(s[s.len() - 1] == c);
        }
    } else {
        assert(partes(s, '\n')[0].len() == 0);
    }
}

/// The list tells of each character that hints at damage in the line that it stands in, whose number
/// is one more than the line feeds before it, and of nothing else. It tells of each character once,
/// in order, and of each line once, in order.
pub proof fn cada_caracter_en_su_fila(r: Seq<CaracterCorrupto>, texto: Seq<char>)
    requires
        lista_de_corruptos(r, texto),
        texto.len() < u64::MAX,
    ensures
        forall|i: int|
            0 <= i < texto.len() && es_corrupto(#[trigger] texto[i]) ==> exists|k: int|
                {
                    &&& 0 <= k < r.len()
                    &&& (#[trigger] r[k]).caracter@ == seq![texto[i]]
                    &&& r[k].filas@.contains((saltos(texto.take(i)) + 1) as u64)
                },
        forall|k: int, f: u64|
            0 <= k < r.len() && #[trigger] r[k].filas@.contains(f) ==> exists|i: int|
                {
                    &&& 0 <= i < texto.len()
                    &&& es_corrupto(#[trigger] texto[i])
                    &&& r[k].caracter@ == seq![texto[i]]
                    &&& f == saltos(texto.take(i)) + 1
                },
        forall|k: int| 0 <= k < r.len() ==> (#[trigger] r[k]).filas@.len() > 0,
        forall|k: int, i: int, j: int|
            0 <= k < r.len() && 0 <= i < j < r[k].filas@.len() ==> #[trigger] r[k].filas@[i]
                < #[trigger] r[k].filas@[j],
        forall|i: int, j: int|
            0 <= i < j < r.len() ==> (#[trigger] r[i]).caracter@[0] < (#[trigger] r[j]).caracter@[0],
{
    assert forall|i: int| 0 <= i < texto.len() && es_corrupto(#[trigger] texto[i]) implies exists|
        k: int,
    |
        {
            &&& 0 <= k < r.len()
            &&& (#[trigger] r[k]).caracter@ == seq![texto[i]]
            &&& r[k].filas@.contains((saltos(texto.take(i)) + 1) as u64)
        } by {
        let c = texto[i];
        let f = saltos(texto.take(i)) + 1;
        texto.take(i).lemma_filter_len(|x: char| x == '\n');
        lema_saltos(texto, c, f as int);
        lema_lineas_y_partes(texto, c, f as int);
        assert(registrado(r, c, f as u64));
    }
    assert forall|k: int, f: u64| 0 <= k < r.len() && #[trigger] r[k].filas@.contains(f) implies exists|
        i: int,
    |
        {
            &&& 0 <= i < texto.len()
            &&& es_corrupto(#[trigger] texto[i])
            &&& r[k].caracter@ == seq![texto[i]]
            &&& f == saltos(texto.take(i)) + 1
        } by {
        let c = r[k].caracter@[0];
        assert(r[k].caracter@ =~= seq![c]);
        assert(registrado(r, c, f));
        lema_lineas_y_partes(texto, c, f as int);
        lema_saltos(texto, c, f as int);
        let i = choose|i: int|
            0 <= i < texto.len() && #[trigger] texto[i] == c && f == saltos(texto.take(i)) + 1;
        assert(es_corrupto(texto[i]));
    }
    assert forall|k: int, i: int, j: int| 0 <= k < r.len() && 0 <= i < j
        < r[k].filas@.len() implies #[trigger] r[k].filas@[i] < #[trigger] r[k].filas@[j] by {
        assert(crecen(r[k].filas@));
    }
}

}
