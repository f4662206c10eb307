//! The fingerprint cache of one directory of reference media: a pack.
//!
//! A pack is kept as text, one entry per line:
//!
//! ```text
//! name:base64
//! ```
//!
//! where the part behind the colon is the base64 form of the fingerprint's
//! words, each packed as four bytes, most significant first. Reading is
//! line-oriented: the last line needs no line feed, white space at the two
//! ends of a line is ignored, and a line must hold exactly one colon.
//!
//! The base64 step is done by the `base64` crate. Its two functions are known
//! here by name only ([`base64_text`], [`base64_bytes`]); the contracts of
//! [`PackFile::encode`] and [`PackFile::decode`] are stated over these names
//! and proved from what the wrappers say of them.

use crate::text::{
    chars_of, find_char, is_space, lemma_position, lemma_position_is, lemma_solid_end_is,
    lemma_space_prefix_is, line_end, line_len, lines, occurs, position, string_of, trim_bounds,
    trimmed,
};
use vstd::prelude::*;
use vstd::string::StringExecFns;

verus! {

/// Why a text is not base64, as the decoder of the `base64` crate says it.
#[derive(Debug, Clone, Copy, PartialEq, Eq)]
pub enum CodeError {
    /// The byte at this offset is no symbol of the alphabet, or padding in
    /// the wrong place.
    InvalidByte(usize, u8),
    /// The number of symbols is not one that a code can have.
    InvalidLength(usize),
    /// The last symbol, at this offset, holds bits that belong to no byte.
    InvalidLastSymbol(usize, u8),
    /// The padding is missing or not as it must be.
    InvalidPadding,
}

/// What can be wrong with a pack.
#[derive(Debug, Clone, Copy, PartialEq, Eq)]
pub enum PackError {
    /// The pack could not be read or written.
    Io,
    /// The part behind the colon is not base64; `source` says why.
    InvalidFingerprint { source: CodeError },
    /// The decoded bytes do not make up whole 32-bit words.
    InvalidU32,
    /// The line at `index`, counted from 0, does not hold exactly one colon.
    InvalidLine { index: usize },
    /// Anything else.
    Unknown,
}

/// One entry of a pack as the contracts see it: a name and a fingerprint.
pub type Entry = (Seq<char>, Seq<u32>);

/// The fingerprints of one directory, each under the name of its file.
#[derive(Eq, Debug, Clone, PartialEq)]
pub struct PackFile {
    pub fingerprint: Vec<(String, Vec<u32>)>,
}

/// The entries of `items` as names and fingerprints.
pub open spec fn entries_of(items: Seq<(String, Vec<u32>)>) -> Seq<Entry> {
    Seq::new(items.len(), |i: int| (items[i].0@, items[i].1@))
}

impl View for PackFile {
    type V = Seq<Entry>;

    open spec fn view(&self) -> Seq<Entry> {
        entries_of(self.fingerprint@)
    }
}

impl Default for PackFile {
    fn default() -> (pack: PackFile)
        ensures
            pack@ == Seq::<Entry>::empty(),
    {
        let pack = PackFile { fingerprint: Vec::new() };
        proof {
            assert(pack@ =~= Seq::<Entry>::empty());
        }
        pack
    }
}

// ---------------------------------------------------------------------------
// Words and bytes
// ---------------------------------------------------------------------------

/// The four bytes of `w`, most significant first.
pub open spec fn word_bytes(w: u32) -> Seq<u8> {
    seq![
        ((w >> 24) & 0xff) as u8,
        ((w >> 16) & 0xff) as u8,
        ((w >> 8) & 0xff) as u8,
        (w & 0xff) as u8,
    ]
}

/// The word whose bytes are `b0`, `b1`, `b2`, `b3`, most significant first.
pub open spec fn word_of(b0: u8, b1: u8, b2: u8, b3: u8) -> u32 {
    (b0 as u32) << 24 | (b1 as u32) << 16 | (b2 as u32) << 8 | (b3 as u32)
}

/// The bytes of a fingerprint: four for each word, in order.
pub open spec fn packed(words: Seq<u32>) -> Seq<u8> {
    Seq::new(4 * words.len(), |i: int| word_bytes(words[i / 4])[i % 4])
}

/// The words that `bytes` hold, four bytes to a word; bytes behind the last
/// whole word are left out.
pub open spec fn unpacked(bytes: Seq<u8>) -> Seq<u32> {
    Seq::new(
        bytes.len() / 4,
        |k: int| word_of(bytes[4 * k], bytes[4 * k + 1], bytes[4 * k + 2], bytes[4 * k + 3]),
    )
}

/// A word is made up again of its four bytes.
proof fn lemma_word_roundtrip(w: u32)
    ensures
        word_of(word_bytes(w)[0], word_bytes(w)[1], word_bytes(w)[2], word_bytes(w)[3]) == w,
{
    let b0 = ((w >> 24) & 0xff) as u8;
    let b1 = ((w >> 16) & 0xff) as u8;
    let b2 = ((w >> 8) & 0xff) as u8;
    let b3 = (w & 0xff) as u8;
    assert((b0 as u32) << 24 | (b1 as u32) << 16 | (b2 as u32) << 8 | (b3 as u32) == w) by (bit_vector)
        requires
            b0 == ((w >> 24) & 0xff) as u8,
            b1 == ((w >> 16) & 0xff) as u8,
            b2 == ((w >> 8) & 0xff) as u8,
            b3 == (w & 0xff) as u8,
    ;
}

/// Unpacking what was packed gives the words back.
pub proof fn lemma_unpack_packed(words: Seq<u32>)
    ensures
        packed(words).len() == 4 * words.len(),
        unpacked(packed(words)) == words,
{
    let bytes = packed(words);
    assert forall|k: int| 0 <= k < words.len() implies unpacked(bytes)[k] == words[k] by {
        lemma_word_roundtrip(words[k]);
    }
    assert(unpacked(bytes) =~= words);
}

/// The bytes of `words`.
pub fn pack_words(words: &Vec<u32>) -> (bytes: Vec<u8>)
    ensures
        bytes@ == packed(words@),
{
    let mut bytes: Vec<u8> = Vec::new();
    let mut i: usize = 0;
    while i < words.len()
        invariant
            i <= words@.len(),
            bytes@ == packed(words@.take(i as int)),
        decreases words@.len() - i,
    {
        let w: u32 = words[i];
        let ghost before = bytes@;
        bytes.push(((w >> 24) & 0xff) as u8);
        bytes.push(((w >> 16) & 0xff) as u8);
        bytes.push(((w >> 8) & 0xff) as u8);
        bytes.push((w & 0xff) as u8);
        proof {
            let s = words@.take(i as int);
            let t = words@.take(i + 1);
            assert(bytes@ =~= before + word_bytes(w));
            assert forall|j: int| 0 <= j < 4 * t.len() implies (before + word_bytes(w))[j]
                == word_bytes(t[j / 4])[j % 4] by {
                if j < 4 * i {
                    assert(t[j / 4] == s[j / 4]);
                }
            }
            assert(bytes@ =~= packed(t));
        }
        i += 1;
    }
    proof {
        assert(words@.take(i as int) =~= words@);
    }
    bytes
}

/// The words that `bytes` hold, where they are whole words.
pub fn unpack_words(bytes: &Vec<u8>) -> (words: Vec<u32>)
    requires
        bytes@.len() % 4 == 0,
    ensures
        words@ == unpacked(bytes@),
{
    let count: usize = bytes.len() / 4;
    let mut words: Vec<u32> = Vec::new();
    let mut k: usize = 0;
    while k < count
        invariant
            k <= count,
            count == bytes@.len() / 4,
            bytes@.len() % 4 == 0,
            bytes@.len() <= usize::MAX,
            words@ == unpacked(bytes@).take(k as int),
        decreases count - k,
    {
        let b0: u8 = bytes[4 * k];
        let b1: u8 = bytes[4 * k + 1];
        let b2: u8 = bytes[4 * k + 2];
        let b3: u8 = bytes[4 * k + 3];
        words.push((b0 as u32) << 24 | (b1 as u32) << 16 | (b2 as u32) << 8 | (b3 as u32));
        proof {
            assert(words@ =~= unpacked(bytes@).take(k + 1));
        }
        k += 1;
    }
    proof {
        assert(unpacked(bytes@).take(k as int) =~= unpacked(bytes@));
    }
    words
}

// ---------------------------------------------------------------------------
// Base64
// ---------------------------------------------------------------------------

/// The text that the `base64` crate's standard engine makes of `bytes`.
pub uninterp spec fn base64_text(bytes: Seq<u8>) -> Seq<char>;

/// The bytes that the `base64` crate's standard engine reads from `text`, or
/// the error with which it rejects the text.
pub uninterp spec fn base64_bytes(text: Seq<char>) -> Result<Seq<u8>, CodeError>;

/// A character of the standard base64 alphabet, or the padding character.
pub open spec fn is_base64_char(c: char) -> bool {
    ||| 'A' <= c <= 'Z'
    ||| 'a' <= c <= 'z'
    ||| '0' <= c <= '9'
    ||| c == '+'
    ||| c == '/'
    ||| c == '='
}

/// The decoder reads `bytes` from `text`.
pub open spec fn is_code_of(text: Seq<char>, bytes: Seq<u8>) -> bool {
    base64_bytes(text) == Ok::<Seq<u8>, CodeError>(bytes)
}

/// The base64 form of `bytes` is read back as `bytes` and is made of base64
/// characters only.
pub open spec fn base64_round_trips(bytes: Seq<u8>) -> bool {
    &&& is_code_of(base64_text(bytes), bytes)
    &&& forall|i: int| 0 <= i < base64_text(bytes).len() ==> is_base64_char(base64_text(bytes)[i])
}

/// Whether the base64 form of `len` bytes has a length that fits a `usize`.
pub open spec fn base64_fits(len: nat) -> bool {
    4 * ((len + 2) / 3) <= usize::MAX
}

/// `Engine::encode` of `base64::engine::general_purpose::STANDARD`.
///
/// Trusted: the result is what the crate makes of the bytes; it consists of
/// characters of the standard alphabet and `=`; and the same engine decodes
/// it to the bytes it was made from. The call panics where the length of the
/// result overflows, which the precondition rules out.
#[verifier::external_body]
fn base64_encode(bytes: &Vec<u8>) -> (text: String)
    requires
        base64_fits(bytes@.len()),
    ensures
        text@ == base64_text(bytes@),
        is_code_of(text@, bytes@),
        forall|i: int| 0 <= i < text@.len() ==> is_base64_char(text@[i]),
{
    base64::Engine::encode(&base64::engine::general_purpose::STANDARD, bytes)
}

/// `Engine::decode` of `base64::engine::general_purpose::STANDARD`.
///
/// Trusted: the result is what the crate reads from the text, or the error
/// with which it rejects the text, variant for variant.
#[verifier::external_body]
fn base64_decode(text: &str) -> (result: Result<Vec<u8>, CodeError>)
    ensures
        match result {
            Ok(bytes) => base64_bytes(text@) == Ok::<Seq<u8>, CodeError>(bytes@),
            Err(e) => base64_bytes(text@) == Err::<Seq<u8>, CodeError>(e),
        },
{
    match base64::Engine::decode(&base64::engine::general_purpose::STANDARD, text) {
        Ok(bytes) => Ok(bytes),
        Err(base64::DecodeError::InvalidByte(at, byte)) => Err(CodeError::InvalidByte(at, byte)),
        Err(base64::DecodeError::InvalidLength(len)) => Err(CodeError::InvalidLength(len)),
        Err(base64::DecodeError::InvalidLastSymbol(at, byte)) => Err(CodeError::InvalidLastSymbol(at, byte)),
        Err(base64::DecodeError::InvalidPadding) => Err(CodeError::InvalidPadding),
    }
}

// ---------------------------------------------------------------------------
// The text of a pack
// ---------------------------------------------------------------------------

/// The line of one entry, line feed included.
pub open spec fn line_of(entry: Entry) -> Seq<char> {
    entry.0 + seq![':'] + base64_text(packed(entry.1)) + seq!['\n']
}

/// The text of a pack: the lines of its entries, in order.
pub open spec fn encoded(entries: Seq<Entry>) -> Seq<char>
    decreases entries.len(),
{
    if entries.len() == 0 {
        Seq::empty()
    } else {
        encoded(entries.drop_last()) + line_of(entries.last())
    }
}

/// `t` holds exactly one colon.
pub open spec fn has_one_colon(t: Seq<char>) -> bool {
    &&& occurs(t, ':')
    &&& !occurs(t.skip(position(t, ':') + 1), ':')
}

/// The two parts of a line, before and behind its colon: the name and the
/// code. White space at the two ends of the line does not count. A line
/// that does not hold exactly one colon has no parts.
pub open spec fn split(line: Seq<char>) -> Option<(Seq<char>, Seq<char>)> {
    let t = trimmed(line);
    let colon = position(t, ':');
    if has_one_colon(t) {
        Some((t.take(colon), t.skip(colon + 1)))
    } else {
        None
    }
}

/// The fingerprint that the outcome of decoding a code stands for: none
/// where the code was rejected, and none where the bytes are no whole words.
pub open spec fn code_words(decoded: Result<Seq<u8>, CodeError>) -> Result<Seq<u32>, PackError> {
    match decoded {
        Err(source) => Err(PackError::InvalidFingerprint { source }),
        Ok(bytes) => if bytes.len() % 4 != 0 {
            Err(PackError::InvalidU32)
        } else {
            Ok(unpacked(bytes))
        },
    }
}

/// What the line at `index` holds: an entry, or the reason why it holds none.
pub open spec fn parse_line(line: Seq<char>, index: nat) -> Result<Entry, PackError> {
    match split(line) {
        None => Err(PackError::InvalidLine { index: index as usize }),
        Some((name, code)) => match code_words(base64_bytes(code)) {
            Ok(words) => Ok((name, words)),
            Err(e) => Err(e),
        },
    }
}

/// `done`, followed by what `rest` gives.
pub open spec fn followed_by(done: Seq<Entry>, rest: Result<Seq<Entry>, PackError>) -> Result<
    Seq<Entry>,
    PackError,
> {
    match rest {
        Ok(entries) => Ok(done + entries),
        Err(e) => Err(e),
    }
}

/// The entries of the lines `ls`, the first of which has the index `first`;
/// or what is wrong with the first line that holds no entry.
pub open spec fn parse_lines(ls: Seq<Seq<char>>, first: nat) -> Result<Seq<Entry>, PackError>
    decreases ls.len(),
{
    if ls.len() == 0 {
        Ok(Seq::empty())
    } else {
        match parse_line(ls[0], first) {
            Err(e) => Err(e),
            Ok(entry) => followed_by(seq![entry], parse_lines(ls.drop_first(), first + 1)),
        }
    }
}

/// The pack that `text` holds, or what is wrong with its first bad line.
pub open spec fn decoded(text: Seq<char>) -> Result<Seq<Entry>, PackError> {
    parse_lines(lines(text), 0)
}

/// A name that comes back unchanged from a pack: it holds no colon and no
/// line feed and does not begin with white space.
pub open spec fn is_clean_name(name: Seq<char>) -> bool {
    &&& forall|i: int| 0 <= i < name.len() ==> name[i] != ':' && name[i] != '\n'
    &&& name.len() > 0 ==> !is_space(name[0])
}

/// Every name of `entries` is clean.
pub open spec fn has_clean_names(entries: Seq<Entry>) -> bool {
    forall|i: int| 0 <= i < entries.len() ==> is_clean_name(#[trigger] entries[i].0)
}

/// The base64 form of every fingerprint of `entries` is read back as it was.
pub open spec fn has_sound_codes(entries: Seq<Entry>) -> bool {
    forall|i: int| 0 <= i < entries.len() ==> base64_round_trips(packed(#[trigger] entries[i].1))
}

/// The text of a pack with one more entry is the text of the pack and the
/// line of the entry.
proof fn lemma_encoded_push(entries: Seq<Entry>, entry: Entry)
    ensures
        encoded(entries.push(entry)) == encoded(entries) + line_of(entry),
{
    assert(entries.push(entry).drop_last() =~= entries);
}

/// The text of a pack is the line of its first entry and the text of the
/// rest.
proof fn lemma_encoded_front(entries: Seq<Entry>)
    requires
        entries.len() > 0,
    ensures
        encoded(entries) == line_of(entries[0]) + encoded(entries.drop_first()),
    decreases entries.len(),
{
    if entries.len() == 1 {
        assert(entries.drop_last() =~= Seq::<Entry>::empty());
        assert(entries.drop_first() =~= Seq::<Entry>::empty());
        assert(encoded(entries) =~= line_of(entries[0]) + encoded(entries.drop_first()));
    } else {
        let front = entries.drop_last();
        lemma_encoded_front(front);
        assert(front.drop_first() =~= entries.drop_first().drop_last());
        assert(entries.drop_first().last() == entries.last());
        assert(encoded(entries) =~= line_of(entries[0]) + encoded(entries.drop_first()));
    }
}

/// The line of an entry with a clean name and a sound code is read back as
/// that entry, and ends at its own line feed whatever follows it.
proof fn lemma_line_roundtrip(entry: Entry, index: nat, rest: Seq<char>)
    requires
        is_clean_name(entry.0),
        base64_round_trips(packed(entry.1)),
    ensures
        parse_line(line_of(entry), index) == Ok::<Entry, PackError>(entry),
        line_len(line_of(entry) + rest) == line_of(entry).len(),
{
    let name = entry.0;
    let code = base64_text(packed(entry.1));
    let line = line_of(entry);
    let body = name + seq![':'] + code;
    assert(line =~= body.push('\n'));
    assert(forall|i: int| 0 <= i < code.len() ==> is_base64_char(code[i]));

    // the line feed that ends the line is the first one of the text
    assert(is_space('\n'));
    assert forall|j: int| 0 <= j < body.len() implies body[j] != '\n' by {
        if j > name.len() {
            assert(is_base64_char(code[j - name.len() - 1]));
        }
    }
    lemma_position_is(line + rest, '\n', body.len() as int);

    // trimming takes the line feed away and nothing else
    assert(!is_space(body[0])) by {
        if name.len() == 0 {
            assert(body[0] == ':');
        }
    }
    assert(!is_space(body.last())) by {
        if code.len() > 0 {
            assert(is_base64_char(code.last()));
            assert(body.last() == code.last());
        } else {
            assert(body.last() == ':');
        }
    }
    lemma_space_prefix_is(line, 0);
    lemma_solid_end_is(line, body.len() as int);
    assert(trimmed(line) =~= body);

    // the one colon stands behind the name
    lemma_position_is(body, ':', name.len() as int);
    assert(body.skip(name.len() as int + 1) =~= code);
    assert(body.take(name.len() as int) =~= name);
    lemma_position(code, ':');
    assert(!occurs(code, ':')) by {
        if position(code, ':') < code.len() {
            assert(is_base64_char(code[position(code, ':')]));
        }
    }
    lemma_unpack_packed(entry.1);
}

/// The round trip, for lines counted from any index.
proof fn lemma_roundtrip_from(entries: Seq<Entry>, first: nat)
    requires
        has_clean_names(entries),
        has_sound_codes(entries),
    ensures
        parse_lines(lines(encoded(entries)), first) == Ok::<Seq<Entry>, PackError>(entries),
    decreases entries.len(),
{
    if entries.len() == 0 {
        assert(entries =~= Seq::<Entry>::empty());
    } else {
        let head = entries[0];
        let tail = entries.drop_first();
        let text = encoded(entries);
        let line = line_of(head);
        lemma_encoded_front(entries);
        assert(is_clean_name(head.0));
        assert(base64_round_trips(packed(head.1)));
        lemma_line_roundtrip(head, first, encoded(tail));
        assert(text.take(line.len() as int) =~= line);
        assert(text.skip(line.len() as int) =~= encoded(tail));
        assert forall|i: int| 0 <= i < tail.len() implies is_clean_name(#[trigger] tail[i].0) by {
            assert(tail[i] == entries[i + 1]);
        }
        assert forall|i: int| 0 <= i < tail.len() implies base64_round_trips(
            packed(#[trigger] tail[i].1),
        ) by {
            assert(tail[i] == entries[i + 1]);
        }
        lemma_roundtrip_from(tail, first + 1);
        let ls = lines(text);
        assert(ls[0] == line);
        assert(ls.drop_first() =~= lines(encoded(tail)));
        assert(seq![head] + tail =~= entries);
    }
}

/// Round trip: the text of a pack is read back as that pack.
///
/// This holds of packs whose names are clean, and rests on the base64 form
/// of each fingerprint being read back as it was, which [`PackFile::encode`]
/// has from the `base64` crate for every fingerprint that it writes.
pub proof fn lemma_roundtrip(entries: Seq<Entry>)
    requires
        has_clean_names(entries),
        has_sound_codes(entries),
    ensures
        decoded(encoded(entries)) == Ok::<Seq<Entry>, PackError>(entries),
{
    lemma_roundtrip_from(entries, 0);
}

/// The index of a malformed line, for lines counted from any index.
proof fn lemma_malformed_line_from(ls: Seq<Seq<char>>, first: nat, index: nat)
    requires
        index < ls.len(),
        forall|j: int| 0 <= j < index ==> parse_line(#[trigger] ls[j], 0) is Ok,
        split(ls[index as int]) is None,
    ensures
        parse_lines(ls, first) == Err::<Seq<Entry>, PackError>(
            PackError::InvalidLine { index: (first + index) as usize },
        ),
    decreases index,
{
    if index > 0 {
        let tail = ls.drop_first();
        assert(parse_line(ls[0], 0) is Ok);
        assert forall|j: int| 0 <= j < index - 1 implies parse_line(#[trigger] tail[j], 0) is Ok by {
            assert(tail[j] == ls[j + 1]);
        }
        assert(tail[index - 1] == ls[index as int]);
        lemma_malformed_line_from(tail, first + 1, (index - 1) as nat);
    }
}

/// A line without exactly one colon is reported with its own index.
///
/// Where every line before the line at `index` holds an entry and that line,
/// its white space trimmed, does not hold exactly one colon, reading the
/// text fails with `InvalidLine`, and the index reported is `index`.
pub proof fn lemma_malformed_line(text: Seq<char>, index: nat)
    requires
        index < lines(text).len(),
        forall|j: int| 0 <= j < index ==> parse_line(#[trigger] lines(text)[j], 0) is Ok,
        split(lines(text)[index as int]) is None,
    ensures
        decoded(text) == Err::<Seq<Entry>, PackError>(
            PackError::InvalidLine { index: index as usize },
        ),
{
    lemma_malformed_line_from(lines(text), 0, index);
}

/// The bounds of the name and of the code of the line `chars[from..to]`, as
/// indices into `chars`: the name from the first to the second, the code
/// from behind the second to the third.
fn split_chars(chars: &Vec<char>, from: usize, to: usize) -> (parts: Option<(usize, usize, usize)>)
    requires
        from <= to <= chars@.len(),
    ensures
        match parts {
            Some((a, colon, b)) => {
                &&& from <= a <= colon < b <= to
                &&& split(chars@.subrange(from as int, to as int)) == Some(
                    (
                        chars@.subrange(a as int, colon as int),
                        chars@.subrange(colon + 1, b as int),
                    ),
                )
            },
            None => split(chars@.subrange(from as int, to as int)) is None,
        },
{
    let (a, b) = trim_bounds(chars, from, to);
    let ghost t = trimmed(chars@.subrange(from as int, to as int));
    let colon: usize = find_char(chars, a, b, ':');
    if colon >= b - a {
        return None;
    }
    let second: usize = find_char(chars, a + colon + 1, b, ':');
    proof {
        assert(t.skip(colon + 1) =~= chars@.subrange(a + colon + 1, b as int));
        assert(t.take(colon as int) =~= chars@.subrange(a as int, a + colon));
    }
    if second < b - (a + colon + 1) {
        return None;
    }
    Some((a, a + colon, b))
}

/// Cuts the line with the index `index` into its name and its code.
///
/// A line that does not hold exactly one colon, white space at its two
/// ends not counted, is refused as `InvalidLine` with its index.
pub fn split_line(line: &str, index: usize) -> (parts: Result<(String, String), PackError>)
    ensures
        match parts {
            Ok((name, code)) => split(line@) == Some((name@, code@)),
            Err(e) => split(line@) is None && e == (PackError::InvalidLine { index }),
        },
{
    let chars = chars_of(line);
    proof {
        assert(chars@.subrange(0, chars@.len() as int) =~= line@);
    }
    match split_chars(&chars, 0, chars.len()) {
        Some((a, colon, b)) => Ok((string_of(&chars, a, colon), string_of(&chars, colon + 1, b))),
        None => Err(PackError::InvalidLine { index }),
    }
}

/// What the decoder gave, the bytes as a sequence.
pub open spec fn outcome_of(decoded: Result<Vec<u8>, CodeError>) -> Result<Seq<u8>, CodeError> {
    match decoded {
        Ok(bytes) => Ok(bytes@),
        Err(e) => Err(e),
    }
}

/// The fingerprint that the outcome of decoding a code stands for.
///
/// A code that the decoder rejected is refused as `InvalidFingerprint`,
/// with the decoder's error; bytes that are no whole words are refused as
/// `InvalidU32`.
pub fn words_of_code(decoded: Result<Vec<u8>, CodeError>) -> (words: Result<
    Vec<u32>,
    PackError,
>)
    ensures
        match words {
            Ok(w) => code_words(outcome_of(decoded)) == Ok::<Seq<u32>, PackError>(w@),
            Err(e) => code_words(outcome_of(decoded)) == Err::<Seq<u32>, PackError>(e),
        },
{
    match decoded {
        Err(source) => Err(PackError::InvalidFingerprint { source }),
        Ok(bytes) => if bytes.len() % 4 != 0 {
            Err(PackError::InvalidU32)
        } else {
            Ok(unpack_words(&bytes))
        },
    }
}

/// Appends the line of an entry with the name `name` and the code `code`.
pub fn push_line(text: &mut String, name: &str, code: &str)
    ensures
        final(text)@ == old(text)@ + (name@ + seq![':'] + code@ + seq!['\n']),
{
    text.append(name);
    text.push(':');
    text.append(code);
    text.push('\n');
    proof {
        assert(final(text)@ =~= old(text)@ + (name@ + seq![':'] + code@ + seq!['\n']));
    }
}

impl PackFile {
    /// Whether every fingerprint of the pack can be written: the base64 form
    /// of its bytes must have a length that fits a `usize`.
    pub open spec fn is_writable(&self) -> bool {
        forall|i: int|
            0 <= i < self@.len() ==> base64_fits(4 * (#[trigger] self@[i]).1.len())
    }

    /// Whether every fingerprint of the pack can be written.
    pub fn can_encode(&self) -> (writable: bool)
        ensures
            writable == self.is_writable(),
    {
        let mut i: usize = 0;
        while i < self.fingerprint.len()
            invariant
                i <= self.fingerprint@.len(),
                forall|j: int| 0 <= j < i ==> base64_fits(4 * (#[trigger] self@[j]).1.len()),
            decreases self.fingerprint@.len() - i,
        {
            let words: u128 = self.fingerprint[i].1.len() as u128;
            if 4 * ((4 * words + 2) / 3) > usize::MAX as u128 {
                proof {
                    assert(!base64_fits(4 * self@[i as int].1.len()));
                }
                return false;
            }
            i += 1;
        }
        true
    }

    /// Reads a pack from its text.
    ///
    /// The result is the pack that the lines of `text` hold, in their order.
    /// The first line that holds no entry decides the error: `InvalidLine`
    /// with the line's index where it lacks its one colon, else
    /// `InvalidFingerprint` where the part behind the colon is not base64,
    /// else `InvalidU32` where the bytes are not whole words.
    pub fn decode(text: &str) -> (result: Result<PackFile, PackError>)
        ensures
            match result {
                Ok(pack) => decoded(text@) == Ok::<Seq<Entry>, PackError>(pack@),
                Err(e) => decoded(text@) == Err::<Seq<Entry>, PackError>(e),
            },
    {
        let chars = chars_of(text);
        let mut entries: Vec<(String, Vec<u32>)> = Vec::new();
        let mut pos: usize = 0;
        let mut index: usize = 0;
        proof {
            assert(chars@.skip(0) =~= text@);
            assert(entries_of(entries@) =~= Seq::<Entry>::empty());
            assert(followed_by(Seq::<Entry>::empty(), decoded(text@)) == decoded(text@)) by {
                match decoded(text@) {
                    Ok(es) => assert(Seq::<Entry>::empty() + es =~= es),
                    Err(_) => {},
                }
            }
        }
        while pos < chars.len()
            invariant
                chars@ == text@,
                index <= pos <= chars@.len(),
                decoded(text@) == followed_by(
                    entries_of(entries@),
                    parse_lines(lines(chars@.skip(pos as int)), index as nat),
                ),
            decreases chars@.len() - pos,
        {
            let ghost rest = chars@.skip(pos as int);
            let ghost done = entries_of(entries@);
            let end: usize = line_end(&chars, pos);
            let ghost line = chars@.subrange(pos as int, end as int);
            proof {
                assert(lines(rest)[0] == line);
                assert(lines(rest).drop_first() =~= lines(chars@.skip(end as int)));
            }
            let (a, colon, b) = match split_chars(&chars, pos, end) {
                Some(parts) => parts,
                None => {
                    return Err(PackError::InvalidLine { index });
                },
            };
            let code = string_of(&chars, colon + 1, b);
            let words = match words_of_code(base64_decode(code.as_str())) {
                Ok(words) => words,
                Err(e) => {
                    return Err(e);
                },
            };
            let name = string_of(&chars, a, colon);
            let ghost entry: Entry = (name@, words@);
            entries.push((name, words));
            proof {
                assert(parse_line(line, index as nat) == Ok::<Entry, PackError>(entry));
                assert(entries_of(entries@) =~= done.push(entry));
                let after = parse_lines(lines(chars@.skip(end as int)), (index + 1) as nat);
                match after {
                    Ok(es) => assert(done + (seq![entry] + es) =~= done.push(entry) + es),
                    Err(_) => {},
                }
            }
            pos = end;
            index += 1;
        }
        let pack = PackFile { fingerprint: entries };
        proof {
            assert(chars@.skip(pos as int) =~= Seq::<char>::empty());
            assert(pack@ + Seq::<Entry>::empty() =~= pack@);
        }
        Ok(pack)
    }

    /// Writes the pack as text: the line of each entry, in order, each ended
    /// by a line feed.
    ///
    /// Where the names are clean, reading the text gives the pack back.
    pub fn encode(&self) -> (text: String)
        requires
            self.is_writable(),
        ensures
            text@ == encoded(self@),
            has_clean_names(self@) ==> decoded(text@) == Ok::<Seq<Entry>, PackError>(self@),
    {
        let mut text = String::new();
        let mut i: usize = 0;
        while i < self.fingerprint.len()
            invariant
                i <= self.fingerprint@.len(),
                self.is_writable(),
                text@ == encoded(self@.take(i as int)),
                has_sound_codes(self@.take(i as int)),
            decreases self.fingerprint@.len() - i,
        {
            let ghost done = self@.take(i as int);
            let ghost entry = self@[i as int];
            let item = &self.fingerprint[i];
            proof {
                assert(base64_fits(4 * entry.1.len()));
            }
            let bytes = pack_words(&item.1);
            let code = base64_encode(&bytes);
            push_line(&mut text, item.0.as_str(), code.as_str());
            proof {
                lemma_encoded_push(done, entry);
                assert(self@.take(i + 1) =~= done.push(entry));
                assert(text@ =~= encoded(done) + line_of(entry));
                assert forall|j: int| 0 <= j < i + 1 implies base64_round_trips(
                    packed(#[trigger] self@.take(i + 1)[j].1),
                ) by {
                    if j < i {
                        assert(self@.take(i + 1)[j] == done[j]);
                    }
                }
            }
            i += 1;
        }
        proof {
            assert(self@.take(i as int) =~= self@);
            if has_clean_names(self@) {
                lemma_roundtrip(self@);
            }
        }
        text
    }
}

} // verus!
