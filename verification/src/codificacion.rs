//! The encoding of a file: guessing it from the first bytes, and decoding the whole.
use chardetng::{EncodingDetector, Iso2022JpDetection, Utf8Detection};
use encoding_rs::{Decoder, Encoding};
use vstd::prelude::*;
use vstd::slice::slice_subrange;
use vstd::utf8::{decode_utf8, encode_utf8, valid_utf8};

verus! {

/// A character encoding.
#[verifier::external_type_specification]
#[verifier::external_body]
pub struct ExEncoding(Encoding);

/// A decoder in the middle of a stream of bytes.
#[verifier::external_type_specification]
#[verifier::external_body]
pub struct ExDecoder(Decoder);

/// How many bytes at the start of a file the guess of its encoding goes by.
pub const TAM_MUESTRA: usize = 4096;

/// How many bytes of a file are decoded at a time.
pub const TAM_BLOQUE: usize = 2048;

/// The name of an encoding, as `encoding_rs::Encoding::name` gives it.
pub uninterp spec fn nombre_codificacion(e: Encoding) -> Seq<char>;

/// `encoding_rs::Encoding::name`, as a string.
#[verifier::external_body]
pub(crate) fn nombre_de(e: &'static Encoding) -> (r: String)
    ensures
        r@ == nombre_codificacion(*e),
{
    e.name().to_string()
}

/// `encoding_rs::UTF_8`, whose name is `UTF-8`.
#[verifier::external_body]
pub(crate) fn utf_8() -> (r: &'static Encoding)
    ensures
        nombre_codificacion(*r) == "UTF-8"@,
{
    encoding_rs::UTF_8
}

/// Whether bytes hold sequences that an encoding, given by its name, has no character for.
pub uninterp spec fn tiene_errores(codificacion: Seq<char>, bytes: Seq<u8>) -> bool;

/// Whether bytes start with a byte order mark of UTF-16.
pub open spec fn marca_utf_16(bytes: Seq<u8>) -> bool {
    bytes.len() >= 2 && (bytes[0] == 0xff && bytes[1] == 0xfe || bytes[0] == 0xfe && bytes[1]
        == 0xff)
}

/// The third item that `encoding_rs::Encoding::decode` returns: whether there were malformed
/// sequences. It depends on the encoding and the bytes alone. For UTF-8 these are the bytes that are
/// not well formed in it, except where a byte order mark tells that they are in UTF-16. The sizes
/// that the function computes on the way fit a machine word for a sample of this length.
#[verifier::external_body]
pub(crate) fn decodifica_con_errores(e: &'static Encoding, bytes: &[u8]) -> (r: bool)
    requires
        bytes@.len() <= TAM_MUESTRA,
    ensures
        r == tiene_errores(nombre_codificacion(*e), bytes@),
        nombre_codificacion(*e) == "UTF-8"@ && !marca_utf_16(bytes@) ==> r == !valid_utf8(bytes@),
        nombre_codificacion(*e) == "UTF-8"@ && valid_utf8(bytes@) ==> !r,
{
    e.decode(bytes).2
}

/// The name of the encoding that `chardetng` guesses for a stream of bytes, where UTF-8 may be the
/// guess, ISO-2022-JP may not, and the domain that the bytes came from is not known.
pub uninterp spec fn codificacion_adivinada(bytes: Seq<u8>) -> Seq<char>;

/// `chardetng::EncodingDetector`, made anew, fed with `bytes` as the whole stream and asked for its
/// guess, which depends on the bytes alone.
#[verifier::external_body]
pub(crate) fn adivinar(bytes: &[u8]) -> (r: &'static Encoding)
    ensures
        nombre_codificacion(*r) == codificacion_adivinada(bytes@),
{
    let mut detector = EncodingDetector::new(Iso2022JpDetection::Deny);
    detector.feed(bytes, true);
    detector.guess(None, Utf8Detection::Allow)
}

/// The start of a file, with zeros after its end up to the length of a sample.
pub open spec fn muestra(leidos: Seq<u8>) -> Seq<u8> {
    Seq::new(
        TAM_MUESTRA as nat,
        |i: int|
            if i < leidos.len() {
                leidos[i]
            } else {
                0
            },
    )
}

/// The sample that `leidos`, the first bytes of a file, make up.
pub fn tomar_muestra(leidos: &[u8]) -> (r: Vec<u8>)
    ensures
        r@ == muestra(leidos@),
{
    let mut r: Vec<u8> = Vec::new();
    for i in 0..TAM_MUESTRA
        invariant
            r@ == muestra(leidos@).take(i as int),
    {
        if i < leidos.len() {
            r.push(leidos[i]);
        } else {
            r.push(0);
        }
        assert(r@ =~= muestra(leidos@).take(i + 1));
    }
    assert(r@ =~= muestra(leidos@));
    r
}

/// The name of the encoding that a file is read in, given a sample of it: UTF-8 if the sample is
/// well formed in it, or has the byte order mark of UTF-16 and no errors; else the one that is
/// guessed.
pub open spec fn codificacion_de(muestra: Seq<u8>) -> Seq<char> {
    if valid_utf8(muestra) || marca_utf_16(muestra) && !tiene_errores("UTF-8"@, muestra) {
        "UTF-8"@
    } else {
        codificacion_adivinada(muestra)
    }
}

/// Only the first bytes of a file, as many as a sample has, decide its encoding.
pub proof fn el_inicio_decide(a: Seq<u8>, b: Seq<u8>)
    requires
        a.len() >= TAM_MUESTRA,
        b.len() >= TAM_MUESTRA,
        a.take(TAM_MUESTRA as int) == b.take(TAM_MUESTRA as int),
    ensures
        muestra(a) == a.take(TAM_MUESTRA as int),
        muestra(a) == muestra(b),
        codificacion_de(muestra(a)) == codificacion_de(muestra(b)),
{
    assert(muestra(a) =~= a.take(TAM_MUESTRA as int));
    assert(muestra(b) =~= b.take(TAM_MUESTRA as int));
}

proof fn lema_ceros_validos(n: nat)
    ensures
        valid_utf8(Seq::new(n, |i: int| 0u8)),
    decreases n,
{
    if n > 0 {
        let ceros = Seq::new(n, |i: int| 0u8);
        lema_ceros_validos((n - 1) as nat);
        assert(vstd::utf8::is_leading_byte_width_1(0u8)) by {
            vstd::utf8::utf8_byte_ranges_bitwise(0u8);
        }
        assert(vstd::utf8::pop_first_scalar(ceros) =~= Seq::new((n - 1) as nat, |i: int| 0u8));
    }
}

/// A short file that is well formed in UTF-8 is read in it.
pub proof fn archivo_corto_en_utf_8(leidos: Seq<u8>)
    requires
        leidos.len() <= TAM_MUESTRA,
        valid_utf8(leidos),
    ensures
        valid_utf8(muestra(leidos)),
        codificacion_de(muestra(leidos)) == "UTF-8"@,
{
    let n = (TAM_MUESTRA - leidos.len()) as nat;
    let ceros = Seq::new(n, |i: int| 0u8);
    lema_ceros_validos(n);
    vstd::utf8::valid_utf8_concat(leidos, ceros);
    assert(muestra(leidos) =~= leidos + ceros);
}

/// The encoding to read a file in, given a sample of it.
pub fn detectar_codificacion(muestra: &[u8]) -> (r: &'static Encoding)
    requires
        muestra@.len() <= TAM_MUESTRA,
    ensures
        nombre_codificacion(*r) == codificacion_de(muestra@),
{
    if decodifica_con_errores(utf_8(), muestra) {
        adivinar(muestra)
    } else {
        utf_8()
    }
}

/// What a decoder has done: the encoding that it was made for, the bytes that it has read, the
/// characters that it has written, and whether its stream has ended.
pub struct Avance {
    pub codificacion: Seq<char>,
    pub entrada: Seq<u8>,
    pub salida: Seq<char>,
    pub terminado: bool,
}

/// What the decoder `d` has done.
pub uninterp spec fn avance(d: Decoder) -> Avance;

/// The text that a whole stream of bytes decodes to, in the encoding with the name given, with the
/// replacement character for each malformed sequence. Where the stream starts with a byte order
/// mark, its encoding is the one that the mark tells.
pub uninterp spec fn texto_decodificado(codificacion: Seq<char>, bytes: Seq<u8>) -> Seq<char>;

/// Whether a text starts with the character of a byte order mark.
pub open spec fn con_marca_inicial(s: Seq<char>) -> bool {
    s.len() > 0 && s[0] == '\u{feff}'
}

/// `s` without the character of a byte order mark at its start, if it has one there.
pub open spec fn sin_marca_inicial(s: Seq<char>) -> Seq<char> {
    if con_marca_inicial(s) {
        s.drop_first()
    } else {
        s
    }
}

/// The text that a file comes to in the encoding with the name given. In UTF-8, a well formed file
/// comes to the text that it holds, but for a byte order mark.
pub open spec fn texto_en(codificacion: Seq<char>, bytes: Seq<u8>) -> Seq<char> {
    if codificacion == "UTF-8"@ && valid_utf8(bytes) {
        sin_marca_inicial(decode_utf8(bytes))
    } else {
        texto_decodificado(codificacion, bytes)
    }
}

/// `encoding_rs::Encoding::new_decoder`: a decoder that has read nothing yet, and that will heed a
/// byte order mark.
#[verifier::external_body]
pub(crate) fn nuevo_decodificador(e: &'static Encoding) -> (r: Decoder)
    ensures
        avance(r) == (Avance {
            codificacion: nombre_codificacion(*e),
            entrada: Seq::empty(),
            salida: Seq::empty(),
            terminado: false,
        }),
{
    e.new_decoder()
}

/// `encoding_rs::Decoder::decode_to_string`, after `String::reserve` has made room for what
/// `encoding_rs::Decoder::max_utf8_buffer_length` says that the block may take.
///
/// With that room the decoder reads the whole block, and what it writes is appended to `texto`.
/// Once it has been told that the stream has ended, all it wrote is the text that the stream
/// decodes to, however the stream was cut into blocks. In UTF-8, a well formed stream decodes to the
/// text that it holds, but for a byte order mark. A decoder whose stream has ended must not be used
/// again, and the room for a block of this length fits a machine word.
#[verifier::external_body]
pub(crate) fn decodificar_bloque(d: &mut Decoder, bloque: &[u8], texto: &mut String, ultimo: bool)
    requires
        !avance(*old(d)).terminado,
        bloque@.len() <= TAM_BLOQUE,
    ensures
        avance(*final(d)).codificacion == avance(*old(d)).codificacion,
        avance(*final(d)).entrada == avance(*old(d)).entrada + bloque@,
        avance(*final(d)).terminado == ultimo,
        old(texto)@.is_prefix_of(final(texto)@),
        avance(*final(d)).salida == avance(*old(d)).salida + final(texto)@.skip(
            old(texto)@.len() as int,
        ),
        ultimo ==> avance(*final(d)).salida == texto_decodificado(
            avance(*final(d)).codificacion,
            avance(*final(d)).entrada,
        ),
        ultimo && avance(*final(d)).codificacion == "UTF-8"@ && valid_utf8(
            avance(*final(d)).entrada,
        ) ==> avance(*final(d)).salida == sin_marca_inicial(
            decode_utf8(avance(*final(d)).entrada),
        ),
{
    let capacidad = d.max_utf8_buffer_length(bloque.len()).unwrap();
    texto.reserve(capacidad);
    let _ = d.decode_to_string(bloque, texto, ultimo);
}

/// Decodes the whole of a file, a block at a time.
pub fn decodificar(e: &'static Encoding, bytes: &[u8]) -> (r: String)
    ensures
        r@ == texto_en(nombre_codificacion(*e), bytes@),
        r@ == texto_decodificado(nombre_codificacion(*e), bytes@),
        nombre_codificacion(*e) == "UTF-8"@ && valid_utf8(bytes@) ==> r@ == (if decode_utf8(
            bytes@,
        ).len() > 0 && decode_utf8(bytes@)[0] == '\u{feff}' {
            decode_utf8(bytes@).skip(1)
        } else {
            decode_utf8(bytes@)
        }),
{
    let mut decodificador = nuevo_decodificador(e);
    let mut texto = String::new();
    let mut leidos: usize = 0;
    while leidos < bytes.len()
        invariant
            leidos <= bytes@.len(),
            avance(decodificador).codificacion == nombre_codificacion(*e),
            avance(decodificador).entrada == bytes@.take(leidos as int),
            avance(decodificador).salida == texto@,
            !avance(decodificador).terminado,
        decreases bytes@.len() - leidos,
    {
        let quedan = bytes.len() - leidos;
        let tam = if quedan < TAM_BLOQUE {
            quedan
        } else {
            TAM_BLOQUE
        };
        let bloque = slice_subrange(bytes, leidos, leidos + tam);
        let ghost antes = texto@;
        decodificar_bloque(&mut decodificador, bloque, &mut texto, false);
        proof {
            assert(bytes@.take(leidos as int) + bloque@ =~= bytes@.take(leidos + tam));
            assert(antes + texto@.skip(antes.len() as int) =~= texto@);
        }
        leidos = leidos + tam;
    }
    let resto = slice_subrange(bytes, leidos, leidos);
    let ghost antes = texto@;
    decodificar_bloque(&mut decodificador, resto, &mut texto, true);
    proof {
        assert(bytes@.take(leidos as int) + resto@ =~= bytes@);
        assert(antes + texto@.skip(antes.len() as int) =~= texto@);
    }
    texto
}

/// The sample has the length of a first look whatever the file, and it holds the bytes of the file as
/// far as they go and zeros from there on.
pub proof fn muestra_del_inicio(leidos: Seq<u8>, i: int)
    requires
        0 <= i < 4096,
    ensures
        muestra(leidos).len() == 4096,
        i < leidos.len() ==> muestra(leidos)[i] == leidos[i],
        i >= leidos.len() ==> muestra(leidos)[i] == 0,
{
}

/// The encoding is UTF-8 where the sample is well formed in it. Elsewhere it is the one that is
/// guessed, unless a byte order mark tells of UTF-16 and there are no errors.
pub proof fn codificacion_por_la_muestra(m: Seq<u8>)
    ensures
        valid_utf8(m) ==> codificacion_de(m) == "UTF-8"@,
        !valid_utf8(m) && !marca_utf_16(m) ==> codificacion_de(m) == codificacion_adivinada(m),
        !valid_utf8(m) && tiene_errores("UTF-8"@, m) ==> codificacion_de(m)
            == codificacion_adivinada(m),
        marca_utf_16(m) && !tiene_errores("UTF-8"@, m) ==> codificacion_de(m) == "UTF-8"@,
{
}

/// All of a file is decoded, whatever its encoding: what comes of it is what its encoding makes of the
/// whole, or, of a file that is well formed in UTF-8, the text whose bytes are those of the file, with
/// or without a byte order mark.
pub proof fn se_decodifica_todo(codificacion: Seq<char>, bytes: Seq<u8>)
    ensures
        !(codificacion == "UTF-8"@ && valid_utf8(bytes)) ==> texto_en(codificacion, bytes)
            == texto_decodificado(codificacion, bytes),
        codificacion == "UTF-8"@ && valid_utf8(bytes) ==> {
            ||| encode_utf8(texto_en(codificacion, bytes)) == bytes
            ||| encode_utf8(seq!['\u{feff}'] + texto_en(codificacion, bytes)) == bytes
        },
        codificacion == "UTF-8"@ && valid_utf8(bytes) && decode_utf8(bytes).len() > 0
            && decode_utf8(bytes)[0] == '\u{feff}' ==> texto_en(codificacion, bytes).len()
            == decode_utf8(bytes).len() - 1,
{
    if valid_utf8(bytes) {
        vstd::utf8::decode_utf8_encode_utf8(bytes);
        let t = decode_utf8(bytes);
        if con_marca_inicial(t) {
            assert(seq!['\u{feff}'] + t.drop_first() =~= t);
        }
    }
}

}
