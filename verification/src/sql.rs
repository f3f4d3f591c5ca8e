//! The schema script that initialises the database: how it is cut into
//! statements, from UTF-8 text or from GBK-encoded bytes.

use vstd::prelude::*;
use crate::text::{chars_of, same_text, string_from, string_push};
use encoding::Encoding;

verus! {

/// Whether `c` has the Unicode `White_Space` property, the property by which
/// std's `char::is_whitespace` and `str::trim` go: tab, line feed, vertical
/// tab, form feed, carriage return, space, next line, no-break space, the
/// Ogham space mark, the spaces from en quad to hair space, the line and
/// paragraph separators, the narrow no-break space, the medium mathematical
/// space and the ideographic space.
pub open spec fn white_space(c: char) -> bool {
    let n = c as u32;
    ||| 0x09 <= n <= 0x0d
    ||| n == 0x20
    ||| n == 0x85
    ||| n == 0xa0
    ||| n == 0x1680
    ||| 0x2000 <= n <= 0x200a
    ||| n == 0x2028
    ||| n == 0x2029
    ||| n == 0x202f
    ||| n == 0x205f
    ||| n == 0x3000
}

/// Whether `c` is white space.
pub fn is_white_space(c: char) -> (r: bool)
    ensures
        r == white_space(c),
{
    let n: u32 = c as u32;
    (0x09 <= n && n <= 0x0d) || n == 0x20 || n == 0x85 || n == 0xa0 || n == 0x1680 || (0x2000 <= n
        && n <= 0x200a) || n == 0x2028 || n == 0x2029 || n == 0x202f || n == 0x205f || n == 0x3000
}

/// `s` without its leading white space.
pub open spec fn trim_start(s: Seq<char>) -> Seq<char>
    decreases s.len(),
{
    if s.len() > 0 && white_space(s[0]) {
        trim_start(s.drop_first())
    } else {
        s
    }
}

/// `s` without its trailing white space.
pub open spec fn trim_end(s: Seq<char>) -> Seq<char>
    decreases s.len(),
{
    if s.len() > 0 && white_space(s.last()) {
        trim_end(s.drop_last())
    } else {
        s
    }
}

/// `s` without leading and trailing white space (std's `str::trim`).
pub open spec fn trim(s: Seq<char>) -> Seq<char> {
    trim_end(trim_start(s))
}

/// The pieces of `s` between the semicolons, in order, empty ones included
/// (std's `str::split(";")`): one more piece than there are semicolons.
pub open spec fn split_semicolons(s: Seq<char>) -> Seq<Seq<char>>
    decreases s.len(),
{
    if s.len() == 0 {
        seq![Seq::<char>::empty()]
    } else {
        let rest = split_semicolons(s.drop_last());
        if s.last() == ';' {
            rest.push(Seq::<char>::empty())
        } else {
            rest.update(rest.len() - 1, rest.last().push(s.last()))
        }
    }
}

/// The statements that the pieces of a script make: each piece trimmed,
/// the empty ones dropped, and a semicolon put back at the end of each.
pub open spec fn statements_of(pieces: Seq<Seq<char>>) -> Seq<Seq<char>>
    decreases pieces.len(),
{
    if pieces.len() == 0 {
        Seq::empty()
    } else {
        let rest = statements_of(pieces.drop_last());
        let t = trim(pieces.last());
        if t.len() == 0 {
            rest
        } else {
            rest.push(t.push(';'))
        }
    }
}

/// The trimmed copy of `cs[from..to]`.
fn trimmed(cs: &Vec<char>, from: usize, to: usize) -> (r: String)
    requires
        from <= to <= cs@.len(),
    ensures
        r@ == trim(cs@.subrange(from as int, to as int)),
{
    let mut a = from;
    while a < to && is_white_space(cs[a])
        invariant
            from <= a <= to <= cs@.len(),
            trim_start(cs@.subrange(from as int, to as int)) == trim_start(cs@.subrange(a as int, to as int)),
        decreases to - a,
    {
        assert(cs@.subrange(a as int, to as int).drop_first() =~= cs@.subrange(a + 1, to as int));
        a = a + 1;
    }
    assert(trim_start(cs@.subrange(a as int, to as int)) == cs@.subrange(a as int, to as int));
    let mut b = to;
    while b > a && is_white_space(cs[b - 1])
        invariant
            from <= a <= b <= to <= cs@.len(),
            trim_end(cs@.subrange(a as int, to as int)) == trim_end(cs@.subrange(a as int, b as int)),
        decreases b - a,
    {
        assert(cs@.subrange(a as int, b as int).drop_last() =~= cs@.subrange(a as int, b - 1));
        b = b - 1;
    }
    assert(trim_end(cs@.subrange(a as int, b as int)) == cs@.subrange(a as int, b as int));
    string_from(cs, a, b)
}

/// The statements of a piece list extended by one piece.
proof fn lemma_statements_push(pieces: Seq<Seq<char>>, p: Seq<char>)
    ensures
        statements_of(pieces.push(p)) == if trim(p).len() == 0 {
            statements_of(pieces)
        } else {
            statements_of(pieces).push(trim(p).push(';'))
        },
{
    assert(pieces.push(p).drop_last() =~= pieces);
}

/// The statements of a UTF-8 script: the pieces between semicolons,
/// trimmed, the empty ones dropped, each ended with a semicolon again.
pub fn sql_statements(content: &str) -> (r: Vec<String>)
    ensures
        r@.map_values(|s: String| s@) == statements_of(split_semicolons(content@)),
{
    let cs = chars_of(content);
    let n = cs.len();
    let mut r: Vec<String> = Vec::new();
    let mut start: usize = 0;
    let ghost mut done: Seq<Seq<char>> = Seq::empty();
    assert(content@.take(0) =~= Seq::<char>::empty());
    assert(split_semicolons(content@.take(0)) =~= done.push(cs@.subrange(0, 0)));
    for i in 0..n
        invariant
            n == cs@.len(),
            cs@ == content@,
            start <= i,
            split_semicolons(content@.take(i as int)) == done.push(cs@.subrange(start as int, i as int)),
            r@.map_values(|s: String| s@) == statements_of(done),
    {
        let ghost prev = content@.take(i as int);
        assert(content@.take(i + 1).drop_last() =~= prev);
        assert(content@.take(i + 1).last() == cs@[i as int]);
        if cs[i] == ';' {
            let t = trimmed(&cs, start, i);
            proof {
                lemma_statements_push(done, cs@.subrange(start as int, i as int));
            }
            if t.unicode_len() > 0 {
                let mut stmt = t;
                string_push(&mut stmt, ';');
                let ghost old_r = r@;
                r.push(stmt);
                assert(r@.map_values(|s: String| s@) =~= old_r.map_values(|s: String| s@).push(stmt@));
            }
            proof {
                done = done.push(cs@.subrange(start as int, i as int));
            }
            start = i + 1;
            assert(cs@.subrange(start as int, i + 1) =~= Seq::<char>::empty());
        } else {
            assert(cs@.subrange(start as int, i + 1) =~= cs@.subrange(start as int, i as int).push(cs@[i as int]));
            assert(done.push(cs@.subrange(start as int, i as int)).update(done.len() as int, cs@.subrange(start as int, i + 1))
                =~= done.push(cs@.subrange(start as int, i + 1)));
        }
    }
    assert(content@.take(n as int) =~= content@);
    let t = trimmed(&cs, start, n);
    proof {
        lemma_statements_push(done, cs@.subrange(start as int, n as int));
    }
    if t.unicode_len() > 0 {
        let mut stmt = t;
        string_push(&mut stmt, ';');
        let ghost old_r = r@;
        r.push(stmt);
        assert(r@.map_values(|s: String| s@) =~= old_r.map_values(|s: String| s@).push(stmt@));
    }
    r
}

/// `s` holds no semicolon.
pub open spec fn no_semicolon(s: Seq<char>) -> bool {
    forall|j: int| 0 <= j < s.len() ==> #[trigger] s[j] != ';'
}

/// A statement as the script runner sends it: a non-empty body without
/// semicolons that neither starts nor ends with white space, then `;`.
pub open spec fn well_formed_statement(st: Seq<char>) -> bool {
    &&& st.len() >= 2
    &&& st.last() == ';'
    &&& no_semicolon(st.drop_last())
    &&& !white_space(st[0])
    &&& !white_space(st[st.len() - 2])
}

proof fn lemma_trim_start(s: Seq<char>)
    ensures
        exists|a: int| 0 <= a <= s.len() && trim_start(s) == #[trigger] s.subrange(a, s.len() as int),
        trim_start(s).len() > 0 ==> !white_space(trim_start(s)[0]),
    decreases s.len(),
{
    if s.len() > 0 && white_space(s[0]) {
        lemma_trim_start(s.drop_first());
        let a = choose|a: int| 0 <= a <= s.drop_first().len() && trim_start(s.drop_first()) == #[trigger] s.drop_first().subrange(a, s.drop_first().len() as int);
        assert(s.drop_first().subrange(a, s.drop_first().len() as int) =~= s.subrange(a + 1, s.len() as int));
    } else {
        assert(s.subrange(0, s.len() as int) =~= s);
    }
}

proof fn lemma_trim_end(s: Seq<char>)
    ensures
        exists|b: int| 0 <= b <= s.len() && trim_end(s) == #[trigger] s.subrange(0, b),
        trim_end(s).len() > 0 ==> !white_space(trim_end(s).last()),
    decreases s.len(),
{
    if s.len() > 0 && white_space(s.last()) {
        lemma_trim_end(s.drop_last());
        let b = choose|b: int| 0 <= b <= s.drop_last().len() && trim_end(s.drop_last()) == #[trigger] s.drop_last().subrange(0, b);
        assert(s.drop_last().subrange(0, b) =~= s.subrange(0, b));
    } else {
        assert(s.subrange(0, s.len() as int) =~= s);
    }
}

/// Trimming keeps a middle part of `s`: without semicolons if `s` has none,
/// and, unless empty, starting and ending with other than white space.
pub proof fn lemma_trim(s: Seq<char>)
    ensures
        no_semicolon(s) ==> no_semicolon(trim(s)),
        trim(s).len() > 0 ==> !white_space(trim(s)[0]) && !white_space(trim(s).last()),
{
    lemma_trim_start(s);
    let a = choose|a: int| 0 <= a <= s.len() && trim_start(s) == #[trigger] s.subrange(a, s.len() as int);
    let t = trim_start(s);
    lemma_trim_end(t);
    let b = choose|b: int| 0 <= b <= t.len() && trim_end(t) == #[trigger] t.subrange(0, b);
    if no_semicolon(s) {
        assert forall|j: int| 0 <= j < trim(s).len() implies #[trigger] trim(s)[j] != ';' by {
            assert(trim(s)[j] == s[a + j]);
        }
    }
    if trim(s).len() > 0 {
        assert(trim(s)[0] == t[0]);
    }
}

/// No piece of a split holds a semicolon.
proof fn lemma_split_pieces(s: Seq<char>)
    ensures
        forall|k: int| 0 <= k < split_semicolons(s).len() ==> no_semicolon(#[trigger] split_semicolons(s)[k]),
        split_semicolons(s).len() >= 1,
    decreases s.len(),
{
    if s.len() > 0 {
        lemma_split_pieces(s.drop_last());
        let rest = split_semicolons(s.drop_last());
        if s.last() != ';' {
            let last = rest.last().push(s.last());
            assert(no_semicolon(rest[rest.len() - 1]));
            assert forall|j: int| 0 <= j < last.len() implies #[trigger] last[j] != ';' by {
                if j < rest.last().len() {
                    assert(last[j] == rest[rest.len() - 1][j]);
                }
            }
            assert forall|k: int| 0 <= k < split_semicolons(s).len() implies no_semicolon(#[trigger] split_semicolons(s)[k]) by {
                if k < rest.len() - 1 {
                    assert(split_semicolons(s)[k] == rest[k]);
                }
            }
        } else {
            assert forall|k: int| 0 <= k < split_semicolons(s).len() implies no_semicolon(#[trigger] split_semicolons(s)[k]) by {
                if k < rest.len() {
                    assert(split_semicolons(s)[k] == rest[k]);
                } else {
                    assert(split_semicolons(s)[k] =~= Seq::<char>::empty());
                }
            }
        }
    }
}

/// The statements of semicolon-free pieces are well formed.
proof fn lemma_statements_shape(pieces: Seq<Seq<char>>)
    requires
        forall|k: int| 0 <= k < pieces.len() ==> no_semicolon(#[trigger] pieces[k]),
    ensures
        forall|k: int| 0 <= k < statements_of(pieces).len() ==> well_formed_statement(#[trigger] statements_of(pieces)[k]),
    decreases pieces.len(),
{
    if pieces.len() > 0 {
        let init = pieces.drop_last();
        assert forall|k: int| 0 <= k < init.len() implies no_semicolon(#[trigger] init[k]) by {
            assert(init[k] == pieces[k]);
        }
        lemma_statements_shape(init);
        let p = pieces.last();
        assert(no_semicolon(pieces[pieces.len() - 1]));
        lemma_trim(p);
        let t = trim(p);
        let prev = statements_of(init);
        if t.len() > 0 {
            let st = t.push(';');
            assert(st.drop_last() =~= t);
            assert(st[st.len() - 2] == t.last());
            assert(well_formed_statement(st));
            assert(statements_of(pieces) == prev.push(st));
            assert forall|k: int| 0 <= k < statements_of(pieces).len() implies well_formed_statement(
                #[trigger] statements_of(pieces)[k],
            ) by {
                if k < prev.len() {
                    assert(statements_of(pieces)[k] == prev[k]);
                }
            }
        } else {
            assert(statements_of(pieces) == prev);
        }
    }
}

/// Every statement cut from a script is a non-empty, trimmed body without
/// semicolons, followed by one semicolon.
pub proof fn law_statements_well_formed(content: Seq<char>)
    ensures
        forall|k: int| 0 <= k < statements_of(split_semicolons(content)).len()
            ==> well_formed_statement(#[trigger] statements_of(split_semicolons(content))[k]),
{
    lemma_split_pieces(content);
    lemma_statements_shape(split_semicolons(content));
}

/// The statements of a list of script pieces.
pub fn statements(pieces: &Vec<String>) -> (r: Vec<String>)
    ensures
        r@.map_values(|s: String| s@) == statements_of(pieces@.map_values(|s: String| s@)),
{
    let ghost views = pieces@.map_values(|s: String| s@);
    let mut r: Vec<String> = Vec::new();
    let n = pieces.len();
    for i in 0..n
        invariant
            n == pieces@.len(),
            views == pieces@.map_values(|s: String| s@),
            r@.map_values(|s: String| s@) == statements_of(views.take(i as int)),
    {
        let cs = chars_of(pieces[i].as_str());
        let t = trimmed(&cs, 0, cs.len());
        assert(cs@.subrange(0, cs@.len() as int) =~= views[i as int]);
        proof {
            lemma_statements_push(views.take(i as int), views[i as int]);
            assert(views.take(i + 1) =~= views.take(i as int).push(views[i as int]));
        }
        if t.unicode_len() > 0 {
            let mut stmt = t;
            string_push(&mut stmt, ';');
            let ghost old_r = r@;
            r.push(stmt);
            assert(r@.map_values(|s: String| s@) =~= old_r.map_values(|s: String| s@).push(stmt@));
        }
    }
    assert(views.take(n as int) =~= views);
    r
}

/// The byte pieces of `s` between the bytes `;`, in order, empty ones
/// included: one more piece than there are separators.
pub open spec fn split_bytes(s: Seq<u8>) -> Seq<Seq<u8>>
    decreases s.len(),
{
    if s.len() == 0 {
        seq![Seq::<u8>::empty()]
    } else {
        let rest = split_bytes(s.drop_last());
        if s.last() == 59u8 {
            rest.push(Seq::<u8>::empty())
        } else {
            rest.update(rest.len() - 1, rest.last().push(s.last()))
        }
    }
}

/// The chunks that reading `s` with std's `BufRead::split(b';')` yields:
/// the pieces between separators, without a last piece that is empty.
pub open spec fn byte_chunks(s: Seq<u8>) -> Seq<Seq<u8>> {
    let p = split_bytes(s);
    if p.last().len() == 0 { p.drop_last() } else { p }
}

/// Reads `content` in chunks separated by the byte `;`, as `BufRead::split`.
pub fn read_chunks(content: &[u8]) -> (r: Vec<Vec<u8>>)
    ensures
        r@.map_values(|c: Vec<u8>| c@) == byte_chunks(content@),
{
    let n = content.len();
    let mut r: Vec<Vec<u8>> = Vec::new();
    let mut cur: Vec<u8> = Vec::new();
    assert(content@.take(0) =~= Seq::<u8>::empty());
    assert(split_bytes(content@.take(0)) =~= r@.map_values(|c: Vec<u8>| c@).push(cur@));
    for i in 0..n
        invariant
            n == content@.len(),
            split_bytes(content@.take(i as int)) == r@.map_values(|c: Vec<u8>| c@).push(cur@),
    {
        let ghost prev = content@.take(i as int);
        let ghost done = r@.map_values(|c: Vec<u8>| c@);
        assert(content@.take(i + 1).drop_last() =~= prev);
        assert(content@.take(i + 1).last() == content@[i as int]);
        if content[i] == 59u8 {
            let piece = cur;
            r.push(piece);
            cur = Vec::new();
            assert(r@.map_values(|c: Vec<u8>| c@) =~= done.push(piece@));
        } else {
            let ghost old_cur = cur@;
            cur.push(content[i]);
            assert(done.push(old_cur).update(done.len() as int, old_cur.push(content@[i as int]))
                =~= done.push(cur@));
        }
    }
    assert(content@.take(n as int) =~= content@);
    if cur.len() > 0 {
        let ghost done = r@.map_values(|c: Vec<u8>| c@);
        r.push(cur);
        assert(r@.map_values(|c: Vec<u8>| c@) =~= done.push(cur@));
    } else {
        assert(r@.map_values(|c: Vec<u8>| c@) =~= split_bytes(content@).drop_last());
    }
    r
}

/// The text that the GBK encoding decodes `bytes` to, with errors trapped
/// strictly: `None` where `bytes` is not valid GBK.
pub uninterp spec fn gbk_text(bytes: Seq<u8>) -> Option<Seq<char>>;

/// Bytes below 0x80 only.
pub open spec fn all_ascii(bytes: Seq<u8>) -> bool {
    forall|i: int| 0 <= i < bytes.len() ==> #[trigger] bytes[i] < 0x80
}

/// Each byte read as the character of the same number.
pub open spec fn ascii_text(bytes: Seq<u8>) -> Seq<char> {
    bytes.map_values(|b: u8| b as char)
}

/// Calls `encoding::all::GBK.decode` with `DecoderTrap::Strict`. Claimed: it
/// gives the text `gbk_text(bytes)`, and fails exactly where that is `None`;
/// bytes below 0x80 decode to the characters of the same numbers (the GBK
/// decoder emits them as they are).
#[verifier::external_body]
fn decode_gbk(bytes: &[u8]) -> (r: Option<String>)
    ensures
        r matches Some(t) ==> gbk_text(bytes@) == Some(t@),
        r is None ==> gbk_text(bytes@) is None,
        all_ascii(bytes@) ==> r is Some && r->0@ == ascii_text(bytes@),
{
    encoding::all::GBK.decode(bytes, encoding::DecoderTrap::Strict).ok()
}

/// The texts of all chunks, or `None` if one of them is not valid GBK.
pub open spec fn decode_all(chunks: Seq<Seq<u8>>) -> Option<Seq<Seq<char>>>
    decreases chunks.len(),
{
    if chunks.len() == 0 {
        Some(Seq::empty())
    } else {
        match (decode_all(chunks.drop_last()), gbk_text(chunks.last())) {
            (Some(rest), Some(t)) => Some(rest.push(t)),
            _ => None,
        }
    }
}

/// The statements of a GBK-encoded script: its `;`-separated chunks decoded
/// one by one, then trimmed, the empty ones dropped, each ended with `;`.
/// `None` where a chunk is not valid GBK.
///
/// On a script of bytes below 0x80 it gives the statements that the same
/// script gives read as UTF-8 text.
pub fn sql_statements_gbk(content: &[u8]) -> (r: Option<Vec<String>>)
    ensures
        match decode_all(byte_chunks(content@)) {
            Some(texts) => r matches Some(v) && v@.map_values(|s: String| s@) == statements_of(texts),
            None => r is None,
        },
        all_ascii(content@) ==> (r matches Some(v) && v@.map_values(|s: String| s@) == statements_of(
            split_semicolons(ascii_text(content@)),
        )),
{
    let chunks = read_chunks(content);
    let ghost cv = chunks@.map_values(|c: Vec<u8>| c@);
    let mut texts: Vec<String> = Vec::new();
    let n = chunks.len();
    for i in 0..n
        invariant
            n == chunks@.len(),
            cv == chunks@.map_values(|c: Vec<u8>| c@),
            cv == byte_chunks(content@),
            decode_all(cv.take(i as int)) == Some(texts@.map_values(|s: String| s@)),
            all_ascii(content@) ==> texts@.map_values(|s: String| s@) == cv.take(i as int).map_values(
                |c: Seq<u8>| ascii_text(c),
            ),
    {
        assert(cv.take(i + 1).drop_last() =~= cv.take(i as int));
        assert(cv.take(i + 1).last() == chunks@[i as int]@);
        proof {
            if all_ascii(content@) {
                lemma_chunks_ascii(content@);
                assert(all_ascii(cv[i as int]));
            }
        }
        match decode_gbk(chunks[i].as_slice()) {
            Some(t) => {
                let ghost old_t = texts@;
                texts.push(t);
                assert(texts@.map_values(|s: String| s@) =~= old_t.map_values(|s: String| s@).push(t@));
                assert(cv.take(i + 1).map_values(|c: Seq<u8>| ascii_text(c)) =~= cv.take(i as int).map_values(
                    |c: Seq<u8>| ascii_text(c),
                ).push(ascii_text(cv[i as int])));
            },
            None => {
                assert(gbk_text(cv[i as int]) is None);
                assert(decode_all(cv.take(i + 1)) is None);
                proof {
                    lemma_decode_all_prefix_none(cv, i as int + 1);
                }
                assert(cv.take(n as int) =~= cv);
                return None;
            },
        }
    }
    assert(cv.take(n as int) =~= cv);
    proof {
        if all_ascii(content@) {
            lemma_ascii_chunks_are_pieces(content@);
        }
    }
    Some(statements(&texts))
}

/// The pieces of a byte script, read as characters, are the pieces of the
/// script read as characters.
proof fn lemma_split_ascii(b: Seq<u8>)
    ensures
        split_bytes(b).map_values(|c: Seq<u8>| ascii_text(c)) == split_semicolons(ascii_text(b)),
        all_ascii(b) ==> forall|k: int| 0 <= k < split_bytes(b).len() ==> all_ascii(#[trigger] split_bytes(b)[k]),
        split_bytes(b).len() >= 1,
    decreases b.len(),
{
    if b.len() == 0 {
        assert(ascii_text(b) =~= Seq::<char>::empty());
        assert(split_bytes(b).map_values(|c: Seq<u8>| ascii_text(c)) =~= seq![Seq::<char>::empty()]) by {
            assert(ascii_text(Seq::<u8>::empty()) =~= Seq::<char>::empty());
        }
    } else {
        let init = b.drop_last();
        lemma_split_ascii(init);
        let rest = split_bytes(init);
        let crest = split_semicolons(ascii_text(init));
        assert(ascii_text(b).drop_last() =~= ascii_text(init));
        assert(ascii_text(b).last() == b.last() as char);
        assert((b.last() == 59u8) == (b.last() as char == ';'));
        if b.last() == 59u8 {
            assert(ascii_text(Seq::<u8>::empty()) =~= Seq::<char>::empty());
            assert(split_bytes(b).map_values(|c: Seq<u8>| ascii_text(c)) =~= crest.push(Seq::<char>::empty()));
            if all_ascii(b) {
                assert forall|k: int| 0 <= k < split_bytes(b).len() implies all_ascii(#[trigger] split_bytes(b)[k]) by {
                    if k < rest.len() {
                        assert(split_bytes(b)[k] == rest[k]);
                    } else {
                        assert(split_bytes(b)[k] =~= Seq::<u8>::empty());
                    }
                }
            }
        } else {
            let last = rest.last().push(b.last());
            assert(rest.map_values(|c: Seq<u8>| ascii_text(c))[rest.len() - 1] == crest.last());
            assert(ascii_text(last) =~= crest.last().push(b.last() as char));
            assert(split_bytes(b).map_values(|c: Seq<u8>| ascii_text(c)) =~= crest.update(
                crest.len() - 1,
                crest.last().push(ascii_text(b).last()),
            ));
            if all_ascii(b) {
                assert(all_ascii(init)) by {
                    assert forall|i: int| 0 <= i < init.len() implies #[trigger] init[i] < 0x80 by {
                        assert(init[i] == b[i]);
                    }
                }
                assert forall|k: int| 0 <= k < split_bytes(b).len() implies all_ascii(#[trigger] split_bytes(b)[k]) by {
                    if k < rest.len() - 1 {
                        assert(split_bytes(b)[k] == rest[k]);
                    } else {
                        assert(all_ascii(rest[rest.len() - 1]));
                        assert(split_bytes(b)[k] == last);
                        assert forall|i: int| 0 <= i < last.len() implies #[trigger] last[i] < 0x80 by {
                            if i < rest.last().len() {
                                assert(last[i] == rest[rest.len() - 1][i]);
                            } else {
                                assert(last[i] == b[b.len() - 1]);
                            }
                        }
                    }
                }
            }
        }
    }
    if b.len() > 0 && all_ascii(b) {
        assert(all_ascii(b.drop_last())) by {
            assert forall|i: int| 0 <= i < b.drop_last().len() implies #[trigger] b.drop_last()[i] < 0x80 by {
                assert(b.drop_last()[i] == b[i]);
            }
        }
    }
}

/// Every chunk of a script of bytes below 0x80 holds only such bytes.
proof fn lemma_chunks_ascii(b: Seq<u8>)
    requires
        all_ascii(b),
    ensures
        forall|k: int| 0 <= k < byte_chunks(b).len() ==> all_ascii(#[trigger] byte_chunks(b)[k]),
{
    lemma_split_ascii(b);
    let p = split_bytes(b);
    assert forall|k: int| 0 <= k < byte_chunks(b).len() implies all_ascii(#[trigger] byte_chunks(b)[k]) by {
        assert(byte_chunks(b)[k] == p[k]);
    }
}

/// The statements of the chunks of a script of bytes below 0x80, read as
/// characters, are those of the script read as characters.
proof fn lemma_ascii_chunks_are_pieces(b: Seq<u8>)
    ensures
        statements_of(byte_chunks(b).map_values(|c: Seq<u8>| ascii_text(c))) == statements_of(
            split_semicolons(ascii_text(b)),
        ),
{
    lemma_split_ascii(b);
    let p = split_bytes(b);
    let mapped = p.map_values(|c: Seq<u8>| ascii_text(c));
    if p.last().len() == 0 {
        assert(byte_chunks(b).map_values(|c: Seq<u8>| ascii_text(c)) =~= mapped.drop_last());
        assert(mapped.last() =~= Seq::<char>::empty());
        assert(trim(Seq::<char>::empty()) =~= Seq::<char>::empty());
        assert(mapped.drop_last().push(mapped.last()) =~= mapped);
        lemma_statements_push(mapped.drop_last(), mapped.last());
    } else {
        assert(byte_chunks(b) == p);
    }
}

/// Once a prefix fails to decode, every longer prefix fails too.
proof fn lemma_decode_all_prefix_none(chunks: Seq<Seq<u8>>, k: int)
    requires
        0 <= k <= chunks.len(),
        decode_all(chunks.take(k)) is None,
    ensures
        decode_all(chunks) is None,
    decreases chunks.len() - k,
{
    if k < chunks.len() {
        assert(chunks.take(k + 1).drop_last() =~= chunks.take(k));
        lemma_decode_all_prefix_none(chunks, k + 1);
    } else {
        assert(chunks.take(k) =~= chunks);
    }
}

/// Whether a failed statement stops the initialisation: only when the
/// variable `IGNORE_INIT_ERRORS` is set, to anything but "1".
pub fn init_error_aborts(ignore_errors: Option<&str>, failed: bool) -> (r: bool)
    ensures
        r == (failed && ignore_errors is Some && ignore_errors->0@ != "1"@),
{
    match ignore_errors {
        Some(v) => failed && !same_text(v, "1"),
        None => false,
    }
}

/// Whether the database is initialised when the backend starts: the
/// variable `DB_FORCE_INIT` is "1".
pub fn force_init(var: Option<&str>) -> (r: bool)
    ensures
        r == (var is Some && var->0@ == "1"@),
{
    match var {
        Some(v) => same_text(v, "1"),
        None => false,
    }
}

} // verus!
