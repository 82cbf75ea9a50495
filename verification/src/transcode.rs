//! Transcoding of C/C++ string-literal tokens into the byte sequences a
//! conforming compiler embeds in the produced binary.
//!
//! A literal token such as `L"ab"` is first stripped of its prefix and
//! quotes, then its escape sequences are resolved, and finally the resolved
//! code units are encoded (UTF-8, UTF-16LE or UTF-32LE) according to the
//! prefix. An octal escape resolves to one raw code unit of the target
//! encoding, never re-encoded.

use vstd::prelude::*;

verus! {

/// Why a literal token could not be transcoded.
#[derive(Debug, Clone, Copy, PartialEq, Eq, Structural)]
pub enum TranscodeError {
    /// The token does not start with a recognized prefix/quote shape.
    UnrecognizedPrefix,
    /// The escaped body ends with a lone backslash.
    TrailingBackslash,
}

/// One resolved element of a literal body: an ordinary character, encoded
/// under the literal's encoding, or the raw code unit an octal escape
/// yields, which passes into the output as a single code unit of the target
/// encoding and is never re-encoded.
#[derive(Debug, Clone, Copy, PartialEq, Eq, Structural)]
pub enum ResolvedUnit {
    /// A character of the body, or the result of a simple escape.
    Character(char),
    /// The single code unit of an octal escape: the octal value truncated
    /// to its low 8 bits.
    OctalByte(u8),
}

/// True for the digits a C octal escape sequence may contain.
pub open spec fn is_octal_digit(c: char) -> bool {
    c == '0' || c == '1' || c == '2' || c == '3' || c == '4' || c == '5' || c == '6' || c == '7'
}

/// Numeric value of one octal digit.
pub open spec fn octal_digit_val(c: char) -> int
    recommends
        is_octal_digit(c),
{
    c as int - 48
}

/// Value of a run of octal digits, most significant first.
pub open spec fn octal_seq_val(ds: Seq<char>) -> int
    decreases ds.len(),
{
    if ds.len() == 0 {
        0
    } else {
        octal_seq_val(ds.drop_last()) * 8 + octal_digit_val(ds.last())
    }
}

/// Length (1 to 3) of the maximal octal-digit run at the start of an octal
/// escape: `s` is the remaining body, with `s[0]` the backslash and `s[1]` a
/// first octal digit.
pub open spec fn octal_run_len(s: Seq<char>) -> int
    recommends
        s.len() >= 2,
        is_octal_digit(s[1]),
{
    if s.len() > 2 && is_octal_digit(s[2]) {
        if s.len() > 3 && is_octal_digit(s[3]) {
            3
        } else {
            2
        }
    } else {
        1
    }
}

/// The character an escaped character resolves to: the recognized simple
/// escapes map to their control character, anything else passes through.
pub open spec fn escape_result(c: char) -> char {
    if c == 'a' {
        '\x07'
    } else if c == 'b' {
        '\x08'
    } else if c == 't' {
        '\t'
    } else if c == 'n' {
        '\n'
    } else if c == 'v' {
        '\x0b'
    } else if c == 'f' {
        '\x0c'
    } else if c == 'r' {
        '\r'
    } else {
        c
    }
}

/// Resolves the escape sequences of a literal body, left to right.
///
/// An octal escape consumes the maximal run of up to three octal digits and
/// yields the single code unit whose value is the octal value truncated to
/// its low 8 bits. A trailing lone backslash makes the whole body
/// untranscodable (`None`).
pub open spec fn unescape(s: Seq<char>) -> Option<Seq<ResolvedUnit>>
    decreases s.len(),
{
    if s.len() == 0 {
        Some(Seq::empty())
    } else if s[0] != '\\' {
        match unescape(s.drop_first()) {
            Some(t) => Some(seq![ResolvedUnit::Character(s[0])] + t),
            None => None,
        }
    } else if s.len() == 1 {
        None
    } else if is_octal_digit(s[1]) {
        let n = octal_run_len(s);
        let v = octal_seq_val(s.subrange(1, 1 + n));
        match unescape(s.skip(1 + n)) {
            Some(t) => Some(seq![ResolvedUnit::OctalByte(((v % 256) as u8))] + t),
            None => None,
        }
    } else {
        match unescape(s.skip(2)) {
            Some(t) => Some(seq![ResolvedUnit::Character(escape_result(s[1]))] + t),
            None => None,
        }
    }
}

/// `unescape(rest)` with the already-resolved prefix `done` prepended.
pub open spec fn unescape_join(done: Seq<ResolvedUnit>, rest: Seq<char>) -> Option<
    Seq<ResolvedUnit>,
> {
    match unescape(rest) {
        Some(t) => Some(done + t),
        None => None,
    }
}

/// Value of a one-digit octal run.
proof fn lemma_octal_val_1(c1: char)
    ensures
        octal_seq_val(seq![c1]) == octal_digit_val(c1),
{
    let d = seq![c1];
    assert(d.drop_last() =~= Seq::<char>::empty());
    assert(octal_seq_val(Seq::<char>::empty()) == 0);
}

/// Value of a two-digit octal run.
proof fn lemma_octal_val_2(c1: char, c2: char)
    ensures
        octal_seq_val(seq![c1, c2]) == octal_digit_val(c1) * 8 + octal_digit_val(c2),
{
    let d = seq![c1, c2];
    assert(d.drop_last() =~= seq![c1]);
    lemma_octal_val_1(c1);
}

/// Value of a three-digit octal run.
proof fn lemma_octal_val_3(c1: char, c2: char, c3: char)
    ensures
        octal_seq_val(seq![c1, c2, c3]) == (octal_digit_val(c1) * 8 + octal_digit_val(c2)) * 8
            + octal_digit_val(c3),
{
    let d = seq![c1, c2, c3];
    assert(d.drop_last() =~= seq![c1, c2]);
    lemma_octal_val_2(c1, c2);
}

/// One resolution step: if the suffix at `i` resolves its first escape (or
/// plain character) to `u` and continues at `i + k`, the join moves `u` into
/// the done prefix.
proof fn lemma_unescape_step(s: Seq<char>, i: int, k: int, done: Seq<ResolvedUnit>, u: ResolvedUnit)
    requires
        0 <= i,
        i + k <= s.len(),
        unescape(s.skip(i)) == match unescape(s.skip(i + k)) {
            Some(t) => Some(seq![u] + t),
            None => None::<Seq<ResolvedUnit>>,
        },
    ensures
        unescape_join(done, s.skip(i)) == unescape_join(done.push(u), s.skip(i + k)),
{
    match unescape(s.skip(i + k)) {
        Some(t) => {
            assert(done + (seq![u] + t) =~= done.push(u) + t);
        },
        None => {},
    }
}

/// Resolves the escape sequences of `string` (a literal body with prefix and
/// quotes already stripped), left to right; `None` exactly when the body
/// ends with a lone backslash.
pub fn process_escape_sequences(string: &str) -> (r: Option<Vec<ResolvedUnit>>)
    ensures
        r matches Some(v) ==> unescape(string@) == Some(v@),
        r is None ==> unescape(string@) is None,
{
    let ghost s = string@;
    let n = string.unicode_len();
    let mut out: Vec<ResolvedUnit> = Vec::new();
    let mut i: usize = 0;
    proof {
        assert(s.skip(0) =~= s);
        match unescape(s) {
            Some(t) => {
                assert(out@ + t =~= t);
            },
            None => {},
        }
    }
    while i < n
        invariant
            i <= n,
            n == s.len(),
            s == string@,
            unescape(s) == unescape_join(out@, s.skip(i as int)),
        decreases n - i,
    {
        let c = string.get_char(i);
        if c != '\\' {
            let unit = ResolvedUnit::Character(c);
            proof {
                assert(s.skip(i as int)[0] == c);
                assert(s.skip(i as int).drop_first() =~= s.skip(i + 1));
                lemma_unescape_step(s, i as int, 1, out@, unit);
            }
            out.push(unit);
            i = i + 1;
        } else if i + 1 == n {
            proof {
                assert(s.skip(i as int).len() == 1);
                assert(s.skip(i as int)[0] == '\\');
                assert(unescape(s.skip(i as int)) is None);
            }
            return None;
        } else {
            let c1 = string.get_char(i + 1);
            proof {
                assert(s.skip(i as int)[0] == '\\');
                assert(s.skip(i as int)[1] == c1);
                assert(s.skip(i as int).len() >= 2);
            }
            if is_octal_digit_exec(c1) {
                // Maximal run of up to three octal digits.
                let mut run: usize = 1;
                if i + 2 < n && is_octal_digit_exec(string.get_char(i + 2)) {
                    run = 2;
                    if i + 3 < n && is_octal_digit_exec(string.get_char(i + 3)) {
                        run = 3;
                    }
                }
                proof {
                    assert(s.skip(i as int).len() > 2 ==> s.skip(i as int)[2] == s[i + 2]);
                    assert(s.skip(i as int).len() > 3 ==> s.skip(i as int)[3] == s[i + 3]);
                    assert(octal_run_len(s.skip(i as int)) == run as int);
                }
                let mut v: u32 = c1 as u32 - 48;
                let ghost digits = s.skip(i as int).subrange(1, 1 + run as int);
                proof {
                    assert(digits[0] == c1);
                    if run == 1 {
                        assert(digits =~= seq![c1]);
                        lemma_octal_val_1(c1);
                    }
                }
                if run >= 2 {
                    let c2 = string.get_char(i + 2);
                    v = v * 8 + (c2 as u32 - 48);
                    proof {
                        assert(digits[1] == c2);
                        if run == 2 {
                            assert(digits =~= seq![c1, c2]);
                            lemma_octal_val_2(c1, c2);
                        }
                    }
                    if run == 3 {
                        let c3 = string.get_char(i + 3);
                        v = v * 8 + (c3 as u32 - 48);
                        proof {
                            assert(digits[2] == c3);
                            assert(digits =~= seq![c1, c2, c3]);
                            lemma_octal_val_3(c1, c2, c3);
                        }
                    }
                }
                let unit = ResolvedUnit::OctalByte((v % 256) as u8);
                proof {
                    assert(v as int == octal_seq_val(digits));
                    assert(unit == ResolvedUnit::OctalByte(((octal_seq_val(digits) % 256) as u8)));
                    assert(s.skip(i as int).skip(1 + run as int) =~= s.skip(i + 1 + run as int));
                    lemma_unescape_step(s, i as int, 1 + run as int, out@, unit);
                }
                out.push(unit);
                i = i + 1 + run;
            } else {
                let unit = ResolvedUnit::Character(escape_result_exec(c1));
                proof {
                    assert(s.skip(i as int).skip(2) =~= s.skip(i + 2));
                    lemma_unescape_step(s, i as int, 2, out@, unit);
                }
                out.push(unit);
                i = i + 2;
            }
        }
    }
    proof {
        assert(s.skip(n as int) =~= Seq::<char>::empty());
        assert(unescape(s) == Some(out@ + Seq::<ResolvedUnit>::empty()));
        assert(out@ + Seq::<ResolvedUnit>::empty() =~= out@);
    }
    Some(out)
}

/// The target encoding a literal prefix selects.
#[derive(Debug, Clone, Copy, PartialEq, Eq, Structural)]
pub enum LiteralEncoding {
    /// Unprefixed or `u8` literal: one UTF-8 byte sequence per character.
    Utf8,
    /// `L` or `u` literal: 2-byte little-endian UTF-16 code units.
    Utf16,
    /// `U` literal: 4-byte little-endian UTF-32 code units.
    Utf32,
}

/// UTF-16 code units of one character: the code point itself, or a
/// surrogate pair for code points above `0xFFFF`.
pub open spec fn utf16_units_of(c: char) -> Seq<u16> {
    let u = c as u32;
    if u < 0x10000 {
        seq![u as u16]
    } else {
        seq![
            (0xD800 | (((u - 0x10000) as u32 >> 10) & 0x3FF)) as u16,
            (0xDC00 | ((u - 0x10000) as u32 & 0x3FF)) as u16,
        ]
    }
}

/// UTF-16 code units of a character sequence.
pub open spec fn utf16_code_units_seq(chars: Seq<char>) -> Seq<u16>
    decreases chars.len(),
{
    if chars.len() == 0 {
        Seq::empty()
    } else {
        utf16_units_of(chars[0]) + utf16_code_units_seq(chars.drop_first())
    }
}

/// UTF-32 code units of a character sequence: each character's code point.
pub open spec fn utf32_code_units_seq(chars: Seq<char>) -> Seq<u32> {
    Seq::new(chars.len(), |i: int| chars[i] as u32)
}

/// UTF-8 bytes of one resolved unit: a character's UTF-8 encoding; an
/// octal-produced unit is the raw byte itself, never re-encoded.
pub open spec fn unit_utf8_bytes(u: ResolvedUnit) -> Seq<u8> {
    match u {
        ResolvedUnit::Character(c) => vstd::utf8::encode_scalar(c as u32),
        ResolvedUnit::OctalByte(b) => seq![b],
    }
}

/// UTF-8 bytes of a resolved-unit sequence.
pub open spec fn units_utf8_bytes(units: Seq<ResolvedUnit>) -> Seq<u8>
    decreases units.len(),
{
    if units.len() == 0 {
        Seq::empty()
    } else {
        unit_utf8_bytes(units[0]) + units_utf8_bytes(units.drop_first())
    }
}

/// UTF-16 code units of one resolved unit: a character's UTF-16 encoding;
/// an octal-produced unit is one unit of that value.
pub open spec fn unit_utf16_units(u: ResolvedUnit) -> Seq<u16> {
    match u {
        ResolvedUnit::Character(c) => utf16_units_of(c),
        ResolvedUnit::OctalByte(b) => seq![b as u16],
    }
}

/// UTF-16 code units of a resolved-unit sequence.
pub open spec fn units_utf16_units(units: Seq<ResolvedUnit>) -> Seq<u16>
    decreases units.len(),
{
    if units.len() == 0 {
        Seq::empty()
    } else {
        unit_utf16_units(units[0]) + units_utf16_units(units.drop_first())
    }
}

/// UTF-32 code unit of one resolved unit: the character's code point, or
/// the octal-produced unit's value.
pub open spec fn unit_utf32_value(u: ResolvedUnit) -> u32 {
    match u {
        ResolvedUnit::Character(c) => c as u32,
        ResolvedUnit::OctalByte(b) => b as u32,
    }
}

/// UTF-32 code units of a resolved-unit sequence.
pub open spec fn units_utf32_units(units: Seq<ResolvedUnit>) -> Seq<u32> {
    Seq::new(units.len(), |i: int| unit_utf32_value(units[i]))
}

/// The character a resolved unit stands for: an octal-produced unit's value
/// names the code point of the same value, which has the same single code
/// unit under UTF-16 and UTF-32 (but not under UTF-8).
pub open spec fn unit_char(u: ResolvedUnit) -> char {
    match u {
        ResolvedUnit::Character(c) => c,
        ResolvedUnit::OctalByte(b) => b as char,
    }
}

/// The characters a resolved-unit sequence stands for.
pub open spec fn units_chars(units: Seq<ResolvedUnit>) -> Seq<char> {
    Seq::new(units.len(), |i: int| unit_char(units[i]))
}

/// Little-endian byte serialization of 16-bit code units.
pub open spec fn le16_bytes(units: Seq<u16>) -> Seq<u8>
    decreases units.len(),
{
    if units.len() == 0 {
        Seq::empty()
    } else {
        seq![(units[0] & 0xFF) as u8, (units[0] >> 8) as u8] + le16_bytes(units.drop_first())
    }
}

/// Little-endian byte serialization of 32-bit code units.
pub open spec fn le32_bytes(units: Seq<u32>) -> Seq<u8>
    decreases units.len(),
{
    if units.len() == 0 {
        Seq::empty()
    } else {
        seq![
            (units[0] & 0xFF) as u8,
            ((units[0] >> 8) & 0xFF) as u8,
            ((units[0] >> 16) & 0xFF) as u8,
            ((units[0] >> 24) & 0xFF) as u8,
        ] + le32_bytes(units.drop_first())
    }
}

/// Bytes a resolved-unit sequence encodes to under the given encoding. An
/// octal-produced unit contributes one code unit of that encoding.
pub open spec fn encoded_bytes(enc: LiteralEncoding, units: Seq<ResolvedUnit>) -> Seq<u8> {
    match enc {
        LiteralEncoding::Utf8 => units_utf8_bytes(units),
        LiteralEncoding::Utf16 => le16_bytes(units_utf16_units(units)),
        LiteralEncoding::Utf32 => le32_bytes(units_utf32_units(units)),
    }
}

/// The encoding and escaped body a syntactically valid literal token
/// carries; `None` when the token has no recognized prefix/quote shape.
pub open spec fn literal_shape(lit: Seq<char>) -> Option<(LiteralEncoding, Seq<char>)> {
    if lit.len() >= 2 && lit[0] == '"' && lit[lit.len() - 1] == '"' {
        Some((LiteralEncoding::Utf8, lit.subrange(1, lit.len() - 1)))
    } else if lit.len() >= 3 && lit[0] == 'L' && lit[1] == '"' && lit[lit.len() - 1] == '"' {
        Some((LiteralEncoding::Utf16, lit.subrange(2, lit.len() - 1)))
    } else if lit.len() >= 3 && lit[0] == 'U' && lit[1] == '"' && lit[lit.len() - 1] == '"' {
        Some((LiteralEncoding::Utf32, lit.subrange(2, lit.len() - 1)))
    } else if lit.len() >= 4 && lit[0] == 'u' && lit[1] == '8' && lit[2] == '"'
        && lit[lit.len() - 1] == '"' {
        Some((LiteralEncoding::Utf8, lit.subrange(3, lit.len() - 1)))
    } else if lit.len() >= 3 && lit[0] == 'u' && lit[1] == '"' && lit[lit.len() - 1] == '"' {
        Some((LiteralEncoding::Utf16, lit.subrange(2, lit.len() - 1)))
    } else {
        None
    }
}

/// The exact bytes a compiler emits for a literal token, or the reason the
/// token cannot be transcoded.
pub open spec fn spec_literal_bytes(lit: Seq<char>) -> Result<Seq<u8>, TranscodeError> {
    match literal_shape(lit) {
        None => Err(TranscodeError::UnrecognizedPrefix),
        Some((enc, body)) => match unescape(body) {
            None => Err(TranscodeError::TrailingBackslash),
            Some(units) => Ok(encoded_bytes(enc, units)),
        },
    }
}

/// Transcoding is a pure function of the literal's text: two outcomes of
/// [`spec_literal_bytes`] on the same token text are the same outcome.
pub proof fn lemma_transcoding_pure(
    lit: Seq<char>,
    r1: Result<Seq<u8>, TranscodeError>,
    r2: Result<Seq<u8>, TranscodeError>,
)
    requires
        r1 == spec_literal_bytes(lit),
        r2 == spec_literal_bytes(lit),
    ensures
        r1 == r2,
{
}

/// Appending one resolved unit appends its UTF-8 bytes.
proof fn lemma_units_utf8_snoc(s: Seq<ResolvedUnit>, u: ResolvedUnit)
    ensures
        units_utf8_bytes(s.push(u)) == units_utf8_bytes(s) + unit_utf8_bytes(u),
    decreases s.len(),
{
    if s.len() == 0 {
        assert(s =~= Seq::<ResolvedUnit>::empty());
        assert(units_utf8_bytes(Seq::<ResolvedUnit>::empty()) =~= Seq::<u8>::empty());
        assert(s.push(u).drop_first() =~= Seq::<ResolvedUnit>::empty());
        assert(s.push(u)[0] == u);
        assert(units_utf8_bytes(s.push(u)) =~= unit_utf8_bytes(u));
        assert(units_utf8_bytes(s) + unit_utf8_bytes(u) =~= unit_utf8_bytes(u));
    } else {
        assert(s.push(u).drop_first() =~= s.drop_first().push(u));
        lemma_units_utf8_snoc(s.drop_first(), u);
        assert(s.push(u)[0] == s[0]);
        assert(unit_utf8_bytes(s[0]) + (units_utf8_bytes(s.drop_first()) + unit_utf8_bytes(u))
            =~= (unit_utf8_bytes(s[0]) + units_utf8_bytes(s.drop_first())) + unit_utf8_bytes(u));
    }
}

/// The UTF-16 code units of a resolved-unit sequence are the code units of
/// the characters it stands for: a code point up to 255 has the one-unit
/// encoding of the same value.
proof fn lemma_utf16_units_agree(units: Seq<ResolvedUnit>)
    ensures
        utf16_code_units_seq(units_chars(units)) == units_utf16_units(units),
    decreases units.len(),
{
    let chars = units_chars(units);
    if units.len() == 0 {
        assert(chars =~= Seq::<char>::empty());
        assert(utf16_code_units_seq(Seq::<char>::empty()) =~= Seq::<u16>::empty());
        assert(units_utf16_units(units) =~= Seq::<u16>::empty());
    } else {
        lemma_utf16_units_agree(units.drop_first());
        assert(chars.drop_first() =~= units_chars(units.drop_first()));
        assert(chars[0] == unit_char(units[0]));
        match units[0] {
            ResolvedUnit::Character(_) => {},
            ResolvedUnit::OctalByte(b) => {
                assert(((b as char) as u32) == b as u32);
                assert(utf16_units_of(b as char) =~= seq![b as u16]);
            },
        }
        assert(utf16_units_of(chars[0]) == unit_utf16_units(units[0]));
    }
}

/// The UTF-32 code units of a resolved-unit sequence are the code points of
/// the characters it stands for.
proof fn lemma_utf32_units_agree(units: Seq<ResolvedUnit>)
    ensures
        utf32_code_units_seq(units_chars(units)) == units_utf32_units(units),
{
    assert forall|i: int| 0 <= i < units.len() implies (#[trigger] units_chars(units)[i]) as u32
        == unit_utf32_value(units[i]) by {
        match units[i] {
            ResolvedUnit::Character(_) => {},
            ResolvedUnit::OctalByte(b) => {
                assert(((b as char) as u32) == b as u32);
            },
        }
    }
    assert(utf32_code_units_seq(units_chars(units)) =~= units_utf32_units(units));
}

/// Appending one 16-bit unit appends its two little-endian bytes.
proof fn lemma_le16_snoc(s: Seq<u16>, u: u16)
    ensures
        le16_bytes(s.push(u)) == le16_bytes(s) + seq![(u & 0xFF) as u8, (u >> 8) as u8],
    decreases s.len(),
{
    let tail = seq![(u & 0xFF) as u8, (u >> 8) as u8];
    if s.len() == 0 {
        assert(s =~= Seq::<u16>::empty());
        assert(le16_bytes(Seq::<u16>::empty()) =~= Seq::<u8>::empty());
        assert(s.push(u).drop_first() =~= Seq::<u16>::empty());
        assert(s.push(u)[0] == u);
        assert(le16_bytes(s.push(u)) =~= tail);
        assert(le16_bytes(s) + tail =~= tail);
    } else {
        assert(s.push(u).drop_first() =~= s.drop_first().push(u));
        lemma_le16_snoc(s.drop_first(), u);
        assert(s.push(u)[0] == s[0]);
        let head = seq![(s[0] & 0xFF) as u8, (s[0] >> 8) as u8];
        assert(head + (le16_bytes(s.drop_first()) + tail) =~= (head + le16_bytes(
            s.drop_first(),
        )) + tail);
    }
}

/// Appending one 32-bit unit appends its four little-endian bytes.
proof fn lemma_le32_snoc(s: Seq<u32>, u: u32)
    ensures
        le32_bytes(s.push(u)) == le32_bytes(s) + seq![
            (u & 0xFF) as u8,
            ((u >> 8) & 0xFF) as u8,
            ((u >> 16) & 0xFF) as u8,
            ((u >> 24) & 0xFF) as u8,
        ],
    decreases s.len(),
{
    let tail = seq![
        (u & 0xFF) as u8,
        ((u >> 8) & 0xFF) as u8,
        ((u >> 16) & 0xFF) as u8,
        ((u >> 24) & 0xFF) as u8,
    ];
    if s.len() == 0 {
        assert(s =~= Seq::<u32>::empty());
        assert(le32_bytes(Seq::<u32>::empty()) =~= Seq::<u8>::empty());
        assert(s.push(u).drop_first() =~= Seq::<u32>::empty());
        assert(s.push(u)[0] == u);
        assert(le32_bytes(s.push(u)) =~= tail);
        assert(le32_bytes(s) + tail =~= tail);
    } else {
        assert(s.push(u).drop_first() =~= s.drop_first().push(u));
        lemma_le32_snoc(s.drop_first(), u);
        assert(s.push(u)[0] == s[0]);
        let head = seq![
            (s[0] & 0xFF) as u8,
            ((s[0] >> 8) & 0xFF) as u8,
            ((s[0] >> 16) & 0xFF) as u8,
            ((s[0] >> 24) & 0xFF) as u8,
        ];
        assert(head + (le32_bytes(s.drop_first()) + tail) =~= (head + le32_bytes(
            s.drop_first(),
        )) + tail);
    }
}

/// Relies on widestring's encode_utf16: each character becomes its code
/// point as one `u16`, or a high/low surrogate pair above `0xFFFF`.
#[verifier::external_body]
fn utf16_code_units(chars: &Vec<char>) -> (r: Vec<u16>)
    ensures
        r@ == utf16_code_units_seq(chars@),
{
    widestring::encode_utf16(chars.iter().copied()).collect()
}

/// Relies on widestring's encode_utf32: each character becomes its code
/// point as one `u32`.
#[verifier::external_body]
fn utf32_code_units(chars: &Vec<char>) -> (r: Vec<u32>)
    ensures
        r@ == utf32_code_units_seq(chars@),
{
    widestring::encode_utf32(chars.iter().copied()).collect()
}

/// The characters a resolved-unit sequence stands for, an octal-produced
/// unit as the code point of its value.
fn units_to_chars(units: &Vec<ResolvedUnit>) -> (r: Vec<char>)
    ensures
        r@ == units_chars(units@),
{
    let mut out: Vec<char> = Vec::new();
    let mut i: usize = 0;
    while i < units.len()
        invariant
            i <= units@.len(),
            out@.len() == i,
            forall|k: int| 0 <= k < i ==> out@[k] == unit_char(units@[k]),
        decreases units@.len() - i,
    {
        let c = match units[i] {
            ResolvedUnit::Character(c) => c,
            ResolvedUnit::OctalByte(b) => b as char,
        };
        out.push(c);
        i = i + 1;
    }
    proof {
        assert(out@ =~= units_chars(units@));
    }
    out
}

/// UTF-8 encoding of a resolved-unit sequence: characters are UTF-8
/// encoded; an octal-produced unit passes through as its raw byte.
fn encode_utf8_units(units: &Vec<ResolvedUnit>) -> (r: Vec<u8>)
    ensures
        r@ == units_utf8_bytes(units@),
{
    let mut out: Vec<u8> = Vec::new();
    let mut i: usize = 0;
    proof {
        assert(units@.take(0) =~= Seq::<ResolvedUnit>::empty());
    }
    while i < units.len()
        invariant
            i <= units@.len(),
            out@ == units_utf8_bytes(units@.take(i as int)),
        decreases units@.len() - i,
    {
        let unit = units[i];
        proof {
            lemma_units_utf8_snoc(units@.take(i as int), unit);
            assert(units@.take(i + 1) =~= units@.take(i as int).push(unit));
        }
        let ghost before = out@;
        match unit {
            ResolvedUnit::OctalByte(b) => {
                out.push(b);
                proof {
                    assert(out@ =~= before + unit_utf8_bytes(unit));
                }
            },
            ResolvedUnit::Character(c) => {
                let u = c as u32;
                proof {
                    vstd::utf8::char_is_scalar(c);
                }
                if u <= 0x7F {
                    out.push((u & 0x7F) as u8);
                    proof {
                        assert(out@ =~= before + unit_utf8_bytes(unit));
                    }
                } else if u <= 0x7FF {
                    out.push(0xC0u8 | ((u >> 6) & 0x1F) as u8);
                    out.push(0x80u8 | (u & 0x3F) as u8);
                    proof {
                        assert(out@ =~= before + unit_utf8_bytes(unit));
                    }
                } else if u <= 0xFFFF {
                    out.push(0xE0u8 | ((u >> 12) & 0x0F) as u8);
                    out.push(0x80u8 | ((u >> 6) & 0x3F) as u8);
                    out.push(0x80u8 | (u & 0x3F) as u8);
                    proof {
                        assert(out@ =~= before + unit_utf8_bytes(unit));
                    }
                } else {
                    out.push(0xF0u8 | ((u >> 18) & 0x7) as u8);
                    out.push(0x80u8 | ((u >> 12) & 0x3F) as u8);
                    out.push(0x80u8 | ((u >> 6) & 0x3F) as u8);
                    out.push(0x80u8 | (u & 0x3F) as u8);
                    proof {
                        assert(out@ =~= before + unit_utf8_bytes(unit));
                    }
                }
            },
        }
        i = i + 1;
    }
    proof {
        assert(units@.take(units@.len() as int) =~= units@);
    }
    out
}

/// Little-endian serialization of UTF-16 code units.
fn le16_flatten(units: &Vec<u16>) -> (r: Vec<u8>)
    ensures
        r@ == le16_bytes(units@),
{
    let mut out: Vec<u8> = Vec::new();
    let mut i: usize = 0;
    proof {
        assert(units@.take(0) =~= Seq::<u16>::empty());
    }
    while i < units.len()
        invariant
            i <= units@.len(),
            out@ == le16_bytes(units@.take(i as int)),
        decreases units@.len() - i,
    {
        let u = units[i];
        proof {
            lemma_le16_snoc(units@.take(i as int), u);
            assert(units@.take(i + 1) =~= units@.take(i as int).push(u));
        }
        let ghost before = out@;
        out.push((u & 0xFF) as u8);
        out.push((u >> 8) as u8);
        proof {
            assert(out@ =~= before + seq![(u & 0xFF) as u8, (u >> 8) as u8]);
        }
        i = i + 1;
    }
    proof {
        assert(units@.take(units@.len() as int) =~= units@);
    }
    out
}

/// Little-endian serialization of UTF-32 code units.
fn le32_flatten(units: &Vec<u32>) -> (r: Vec<u8>)
    ensures
        r@ == le32_bytes(units@),
{
    let mut out: Vec<u8> = Vec::new();
    let mut i: usize = 0;
    proof {
        assert(units@.take(0) =~= Seq::<u32>::empty());
    }
    while i < units.len()
        invariant
            i <= units@.len(),
            out@ == le32_bytes(units@.take(i as int)),
        decreases units@.len() - i,
    {
        let u = units[i];
        proof {
            lemma_le32_snoc(units@.take(i as int), u);
            assert(units@.take(i + 1) =~= units@.take(i as int).push(u));
        }
        let ghost before = out@;
        out.push((u & 0xFF) as u8);
        out.push(((u >> 8) & 0xFF) as u8);
        out.push(((u >> 16) & 0xFF) as u8);
        out.push(((u >> 24) & 0xFF) as u8);
        proof {
            assert(out@ =~= before + seq![
                (u & 0xFF) as u8,
                ((u >> 8) & 0xFF) as u8,
                ((u >> 16) & 0xFF) as u8,
                ((u >> 24) & 0xFF) as u8,
            ]);
        }
        i = i + 1;
    }
    proof {
        assert(units@.take(units@.len() as int) =~= units@);
    }
    out
}

/// Encodes a resolved-unit sequence under the given encoding. Under UTF-16
/// and UTF-32 an octal-produced unit equals the encoding of the code point
/// of its value, so the sequence is encoded through its characters; under
/// UTF-8 the raw byte is kept as it is.
fn encode_units(enc: LiteralEncoding, units: &Vec<ResolvedUnit>) -> (r: Vec<u8>)
    ensures
        r@ == encoded_bytes(enc, units@),
{
    match enc {
        LiteralEncoding::Utf8 => encode_utf8_units(units),
        LiteralEncoding::Utf16 => {
            let chars = units_to_chars(units);
            let code_units = utf16_code_units(&chars);
            proof {
                lemma_utf16_units_agree(units@);
            }
            le16_flatten(&code_units)
        },
        LiteralEncoding::Utf32 => {
            let chars = units_to_chars(units);
            let code_units = utf32_code_units(&chars);
            proof {
                lemma_utf32_units_agree(units@);
            }
            le32_flatten(&code_units)
        },
    }
}

/// Transcodes a literal token's raw text (prefix and quotes included) into
/// the exact byte sequence the compiler embeds for it, or reports why the
/// token cannot be transcoded.
pub fn string_literal_to_bytes(string_literal: &str) -> (r: Result<Vec<u8>, TranscodeError>)
    ensures
        r matches Ok(v) ==> spec_literal_bytes(string_literal@) == Ok::<Seq<u8>, TranscodeError>(
            v@,
        ),
        r matches Err(e) ==> spec_literal_bytes(string_literal@) == Err::<Seq<u8>, TranscodeError>(
            e,
        ),
{
    let ghost lit = string_literal@;
    let n = string_literal.unicode_len();
    let enc: LiteralEncoding;
    let start: usize;
    if n >= 2 && string_literal.get_char(0) == '"' && string_literal.get_char(n - 1) == '"' {
        enc = LiteralEncoding::Utf8;
        start = 1;
    } else if n >= 3 && string_literal.get_char(0) == 'L' && string_literal.get_char(1) == '"'
        && string_literal.get_char(n - 1) == '"' {
        enc = LiteralEncoding::Utf16;
        start = 2;
    } else if n >= 3 && string_literal.get_char(0) == 'U' && string_literal.get_char(1) == '"'
        && string_literal.get_char(n - 1) == '"' {
        enc = LiteralEncoding::Utf32;
        start = 2;
    } else if n >= 4 && string_literal.get_char(0) == 'u' && string_literal.get_char(1) == '8'
        && string_literal.get_char(2) == '"' && string_literal.get_char(n - 1) == '"' {
        enc = LiteralEncoding::Utf8;
        start = 3;
    } else if n >= 3 && string_literal.get_char(0) == 'u' && string_literal.get_char(1) == '"'
        && string_literal.get_char(n - 1) == '"' {
        enc = LiteralEncoding::Utf16;
        start = 2;
    } else {
        proof {
            assert(literal_shape(lit) is None);
        }
        return Err(TranscodeError::UnrecognizedPrefix);
    }
    proof {
        assert(literal_shape(lit) == Some((enc, lit.subrange(start as int, lit.len() - 1))));
    }
    let body = string_literal.substring_char(start, n - 1);
    match process_escape_sequences(body) {
        None => Err(TranscodeError::TrailingBackslash),
        Some(units) => Ok(encode_units(enc, &units)),
    }
}

/// Executable twin of [`is_octal_digit`].
fn is_octal_digit_exec(c: char) -> (r: bool)
    ensures
        r == is_octal_digit(c),
{
    c == '0' || c == '1' || c == '2' || c == '3' || c == '4' || c == '5' || c == '6' || c == '7'
}

/// Executable twin of [`escape_result`].
fn escape_result_exec(c: char) -> (r: char)
    ensures
        r == escape_result(c),
{
    if c == 'a' {
        '\x07'
    } else if c == 'b' {
        '\x08'
    } else if c == 't' {
        '\t'
    } else if c == 'n' {
        '\n'
    } else if c == 'v' {
        '\x0b'
    } else if c == 'f' {
        '\x0c'
    } else if c == 'r' {
        '\r'
    } else {
        c
    }
}

} // verus!
