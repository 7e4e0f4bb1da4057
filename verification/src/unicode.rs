//! What the library takes from Unicode: white space, lower case, canonical decomposition and the
//! replacement of a class of characters.
use unicode_normalization::UnicodeNormalization;
use vstd::prelude::*;

verus! {

/// The characters with the Unicode property `White_Space`.
pub open spec fn es_blanco(c: char) -> bool {
    ||| '\u{9}' <= c <= '\u{d}'
    ||| c == ' '
    ||| c == '\u{85}'
    ||| c == '\u{a0}'
    ||| c == '\u{1680}'
    ||| '\u{2000}' <= c <= '\u{200a}'
    ||| c == '\u{2028}'
    ||| c == '\u{2029}'
    ||| c == '\u{202f}'
    ||| c == '\u{205f}'
    ||| c == '\u{3000}'
}

/// `char::is_whitespace` tells whether a character has the property `White_Space`.
pub assume_specification[ char::is_whitespace ](c: char) -> (r: bool)
    ensures
        r == es_blanco(c),
;

/// Whether every character of `s` is in ASCII.
pub open spec fn es_ascii(s: Seq<char>) -> bool {
    forall|i: int| 0 <= i < s.len() ==> #[trigger] s[i] <= '\u{7f}'
}

/// The lower case of a character of ASCII.
pub open spec fn minuscula_ascii(c: char) -> char {
    if 'A' <= c <= 'Z' {
        (c as u32 + 32) as char
    } else {
        c
    }
}

/// The lower case of a text, as `str::to_lowercase` gives it.
pub uninterp spec fn minusculas(s: Seq<char>) -> Seq<char>;

/// `str::to_lowercase` depends on its text alone. On a text in ASCII it changes the letters from
/// `A` to `Z` and nothing else.
pub assume_specification[ str::to_lowercase ](s: &str) -> (r: String)
    ensures
        r@ == minusculas(s@),
        es_ascii(s@) ==> r@ == s@.map_values(|c: char| minuscula_ascii(c)),
;

/// The canonical decomposition of a text (normalization form D).
pub uninterp spec fn descomposicion(s: Seq<char>) -> Seq<char>;

/// `unicode_normalization::UnicodeNormalization::nfd`, with the characters that it yields
/// collected into a string. They depend on the text alone, and a text in ASCII is its own
/// decomposition.
#[verifier::external_body]
pub(crate) fn descomponer(s: &str) -> (r: String)
    ensures
        r@ == descomposicion(s@),
        es_ascii(s@) ==> r@ == s@,
{
    s.nfd().collect::<String>()
}

/// The characters of the class `[a-z0-9]`.
pub open spec fn es_alfanumerico(c: char) -> bool {
    'a' <= c <= 'z' || '0' <= c <= '9'
}

/// `s` with an underscore in place of every character outside `[a-z0-9]`.
pub open spec fn sin_especiales(s: Seq<char>) -> Seq<char> {
    s.map_values(|c: char| if es_alfanumerico(c) { c } else { '_' })
}

/// `regex::Regex::replace_all`. The pattern matches one character at a time, each one outside
/// `[a-z0-9]`, and the replacement holds no reference to a group, so each match becomes one
/// underscore and the rest stays.
#[verifier::external_body]
pub(crate) fn reemplazar_clase(patron: &str, s: &str, por: &str) -> (r: String)
    requires
        patron@ == "[^a-z0-9]"@,
        por@ == "_"@,
    ensures
        r@ == sin_especiales(s@),
{
    regex::Regex::new(patron).unwrap().replace_all(s, por).into_owned()
}

}
