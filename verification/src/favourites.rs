//! The favourites store: serialization of favourite (path, label) records.
//!
//! Records are persisted as a single flat text: a bracketed sequence of
//! two-element string arrays, `[["path","label"],...]`, with `"` and `\`
//! escaped by a backslash inside strings. Insertion order is preserved and
//! uniqueness is not enforced — callers de-duplicate if they need to. The
//! store file itself is read and written by the surrounding application;
//! the library produces and consumes the exact text, and decoding an
//! encoded sequence provably yields the sequence back.

use vstd::prelude::*;
use crate::text::chars_of;

verus! {

/// One favourite: a pinned path and the label it is shown under.
#[derive(Debug, PartialEq, Eq)]
pub struct FavouriteRecord {
    pub path: String,
    pub label: String,
}

impl View for FavouriteRecord {
    type V = (Seq<char>, Seq<char>);

    open spec fn view(&self) -> (Seq<char>, Seq<char>) {
        (self.path@, self.label@)
    }
}

/// The views of a sequence of records.
pub open spec fn rec_views(s: Seq<FavouriteRecord>) -> Seq<(Seq<char>, Seq<char>)> {
    s.map_values(|r: FavouriteRecord| r@)
}

/// Why the store's contents could not be used.
#[derive(Clone, Copy, Debug, PartialEq, Eq, Structural)]
pub enum PersistenceError {
    /// The stored text is not a well-formed record sequence. Loading fails
    /// fatally on such a store; it does not default to an empty one.
    Malformed,
}

// ---------------------------------------------------------------------------
// The encoding, as specification.
// ---------------------------------------------------------------------------

/// A character as it appears inside an encoded string: `"` and `\` get a
/// leading backslash, everything else stands as itself.
pub open spec fn esc_char(c: char) -> Seq<char> {
    if c == '"' || c == '\\' {
        seq!['\\', c]
    } else {
        seq![c]
    }
}

/// A whole string body, escaped.
pub open spec fn esc(s: Seq<char>) -> Seq<char>
    decreases s.len(),
{
    if s.len() == 0 {
        Seq::empty()
    } else {
        esc_char(s[0]) + esc(s.drop_first())
    }
}

/// An encoded string: the escaped body in double quotes.
pub open spec fn enc_string(s: Seq<char>) -> Seq<char> {
    seq!['"'] + esc(s) + seq!['"']
}

/// An encoded record: a two-element array of its path and label.
pub open spec fn enc_pair(p: (Seq<char>, Seq<char>)) -> Seq<char> {
    seq!['['] + enc_string(p.0) + seq![','] + enc_string(p.1) + seq![']']
}

/// The comma-separated encoded records, without the outer brackets.
pub open spec fn enc_items(rs: Seq<(Seq<char>, Seq<char>)>) -> Seq<char>
    decreases rs.len(),
{
    if rs.len() == 0 {
        Seq::empty()
    } else if rs.len() == 1 {
        enc_pair(rs[0])
    } else {
        enc_pair(rs[0]) + seq![','] + enc_items(rs.drop_first())
    }
}

/// The encoded record sequence: the persisted text of the whole store.
pub open spec fn enc_records(rs: Seq<(Seq<char>, Seq<char>)>) -> Seq<char> {
    seq!['['] + enc_items(rs) + seq![']']
}

// ---------------------------------------------------------------------------
// The decoding, as specification: a recursive-descent parser over the
// remaining input. String bodies carry an accumulator of the characters
// read so far.
// ---------------------------------------------------------------------------

/// Parses a string body up to its closing quote; returns the accumulated
/// characters and the input that follows the quote.
pub open spec fn p_string_body(s: Seq<char>, acc: Seq<char>) -> Option<(Seq<char>, Seq<char>)>
    decreases s.len(),
{
    if s.len() == 0 {
        None
    } else if s[0] == '"' {
        Some((acc, s.drop_first()))
    } else if s[0] == '\\' {
        if s.len() >= 2 {
            p_string_body(s.skip(2), acc.push(s[1]))
        } else {
            None
        }
    } else {
        p_string_body(s.drop_first(), acc.push(s[0]))
    }
}

/// Parses a quoted string.
pub open spec fn p_string(s: Seq<char>) -> Option<(Seq<char>, Seq<char>)> {
    if s.len() >= 1 && s[0] == '"' {
        p_string_body(s.drop_first(), Seq::empty())
    } else {
        None
    }
}

/// Parses one encoded record.
pub open spec fn p_pair(s: Seq<char>) -> Option<((Seq<char>, Seq<char>), Seq<char>)> {
    if s.len() >= 1 && s[0] == '[' {
        match p_string(s.drop_first()) {
            Some((a, r1)) => {
                if r1.len() >= 1 && r1[0] == ',' {
                    match p_string(r1.drop_first()) {
                        Some((b, r2)) => {
                            if r2.len() >= 1 && r2[0] == ']' {
                                Some(((a, b), r2.drop_first()))
                            } else {
                                None
                            }
                        },
                        None => None,
                    }
                } else {
                    None
                }
            },
            None => None,
        }
    } else {
        None
    }
}

/// Parses one or more comma-separated records up to the closing bracket of
/// the sequence. `fuel` bounds the recursion; any fuel of at least the
/// number of records (in particular, the input length) gives the same
/// result.
pub open spec fn p_items(
    s: Seq<char>,
    acc: Seq<(Seq<char>, Seq<char>)>,
    fuel: nat,
) -> Option<(Seq<(Seq<char>, Seq<char>)>, Seq<char>)>
    decreases fuel,
{
    if fuel == 0 {
        None
    } else {
        match p_pair(s) {
            Some((p, r)) => {
                if r.len() >= 1 && r[0] == ',' {
                    p_items(r.drop_first(), acc.push(p), (fuel - 1) as nat)
                } else if r.len() >= 1 && r[0] == ']' {
                    Some((acc.push(p), r.drop_first()))
                } else {
                    None
                }
            },
            None => None,
        }
    }
}

/// What a stored text decodes to: the record sequence it encodes, or
/// nothing where the text is not a well-formed store.
pub open spec fn dec_records(s: Seq<char>) -> Option<Seq<(Seq<char>, Seq<char>)>> {
    if s.len() >= 1 && s[0] == '[' {
        let t = s.drop_first();
        if t.len() >= 1 && t[0] == ']' {
            if t.len() == 1 {
                Some(Seq::empty())
            } else {
                None
            }
        } else {
            match p_items(t, Seq::empty(), t.len()) {
                Some((rs, rest)) => {
                    if rest.len() == 0 {
                        Some(rs)
                    } else {
                        None
                    }
                },
                None => None,
            }
        }
    } else {
        None
    }
}

// ---------------------------------------------------------------------------
// Encoding, executable.
// ---------------------------------------------------------------------------

proof fn lemma_esc_concat(a: Seq<char>, b: Seq<char>)
    ensures
        esc(a + b) == esc(a) + esc(b),
    decreases a.len(),
{
    if a.len() == 0 {
        assert(a + b =~= b);
        assert(esc(a) + esc(b) =~= esc(b));
    } else {
        assert((a + b).len() > 0);
        assert((a + b)[0] == a[0]);
        assert((a + b).drop_first() =~= a.drop_first() + b);
        lemma_esc_concat(a.drop_first(), b);
        assert(esc(a + b) =~= esc(a) + esc(b));
    }
}

proof fn lemma_esc_singleton(c: char)
    ensures
        esc(seq![c]) == esc_char(c),
{
    assert(seq![c].drop_first() =~= Seq::<char>::empty());
    assert(esc_char(c) + esc(Seq::<char>::empty()) =~= esc_char(c));
}

/// Appends the encoding of one string.
fn encode_string_into(out: &mut String, s: &str)
    ensures
        final(out)@ == old(out)@ + enc_string(s@),
{
    let ghost base = out@;
    out.push('"');
    let v = chars_of(s);
    let mut i: usize = 0;
    proof {
        assert(s@.take(0) =~= Seq::<char>::empty());
        assert(out@ =~= base + seq!['"'] + esc(s@.take(0)));
    }
    while i < v.len()
        invariant
            v@ == s@,
            0 <= i <= v@.len(),
            out@ == base + seq!['"'] + esc(s@.take(i as int)),
        decreases v@.len() - i,
    {
        let c = v[i];
        if c == '"' || c == '\\' {
            out.push('\\');
            out.push(c);
        } else {
            out.push(c);
        }
        proof {
            assert(s@.take(i + 1) =~= s@.take(i as int) + seq![s@[i as int]]);
            lemma_esc_concat(s@.take(i as int), seq![s@[i as int]]);
            lemma_esc_singleton(s@[i as int]);
            assert(out@ =~= base + seq!['"'] + esc(s@.take(i + 1)));
        }
        i += 1;
    }
    out.push('"');
    proof {
        assert(s@.take(s@.len() as int) =~= s@);
        assert(out@ =~= base + enc_string(s@));
    }
}

/// Appends the encoding of one record.
fn encode_pair_into(out: &mut String, rec: &FavouriteRecord)
    ensures
        final(out)@ == old(out)@ + enc_pair(rec@),
{
    let ghost base = out@;
    out.push('[');
    encode_string_into(out, rec.path.as_str());
    out.push(',');
    encode_string_into(out, rec.label.as_str());
    out.push(']');
    proof {
        assert(out@ =~= base + enc_pair(rec@));
    }
}

proof fn lemma_enc_items_concat(a: Seq<(Seq<char>, Seq<char>)>, b: Seq<(Seq<char>, Seq<char>)>)
    requires
        a.len() >= 1,
        b.len() >= 1,
    ensures
        enc_items(a + b) == enc_items(a) + seq![','] + enc_items(b),
    decreases a.len(),
{
    if a.len() == 1 {
        assert((a + b).len() >= 2);
        assert((a + b)[0] == a[0]);
        assert((a + b).drop_first() =~= b);
        assert(enc_items(a + b) =~= enc_items(a) + seq![','] + enc_items(b));
    } else {
        assert((a + b)[0] == a[0]);
        assert((a + b).drop_first() =~= a.drop_first() + b);
        lemma_enc_items_concat(a.drop_first(), b);
        assert(enc_items(a + b) =~= enc_items(a) + seq![','] + enc_items(b));
    }
}

/// The persisted text of a favourites sequence. What this returns, a store
/// write must put down verbatim; decoding gives the records back exactly.
pub fn encode_favourites(records: &Vec<FavouriteRecord>) -> (s: String)
    ensures
        s@ == enc_records(rec_views(records@)),
{
    let ghost views = rec_views(records@);
    let mut out = String::new();
    out.push('[');
    let mut i: usize = 0;
    proof {
        assert(out@ =~= seq!['[']);
    }
    while i < records.len()
        invariant
            0 <= i <= records@.len(),
            views == rec_views(records@),
            i == 0 ==> out@ == seq!['['],
            i >= 1 ==> out@ == seq!['['] + enc_items(views.take(i as int)),
        decreases records@.len() - i,
    {
        if i > 0 {
            out.push(',');
        }
        let ghost mid = out@;
        encode_pair_into(&mut out, &records[i]);
        proof {
            assert(views[i as int] == records@[i as int]@);
            assert(views.take(i + 1) =~= views.take(i as int) + seq![views[i as int]]);
            if i == 0 {
                assert(seq![views[0]].len() == 1);
                assert(enc_items(views.take(1)) =~= enc_pair(views[0]));
                assert(out@ =~= seq!['['] + enc_items(views.take(1)));
            } else {
                lemma_enc_items_concat(views.take(i as int), seq![views[i as int]]);
                assert(enc_items(seq![views[i as int]]) =~= enc_pair(views[i as int]));
                assert(out@ =~= seq!['['] + enc_items(views.take(i + 1)));
            }
        }
        i += 1;
    }
    out.push(']');
    proof {
        if records@.len() == 0 {
            assert(enc_items(views) =~= Seq::<char>::empty());
            assert(out@ =~= enc_records(views));
        } else {
            assert(views.take(views.len() as int) =~= views);
            assert(out@ =~= enc_records(views));
        }
    }
    out
}

// ---------------------------------------------------------------------------
// Decoding, executable.
// ---------------------------------------------------------------------------

/// Parses a string body from `start`, mirroring [`p_string_body`].
fn parse_string_body(v: &Vec<char>, start: usize) -> (r: Option<(String, usize)>)
    requires
        start <= v@.len(),
    ensures
        match r {
            Some((t, pos)) => start <= pos <= v@.len() && p_string_body(
                v@.skip(start as int),
                Seq::empty(),
            ) == Some((t@, v@.skip(pos as int))),
            None => p_string_body(v@.skip(start as int), Seq::empty()) is None,
        },
{
    let mut acc = String::new();
    let mut j = start;
    loop
        invariant
            start <= j <= v@.len(),
            p_string_body(v@.skip(start as int), Seq::empty()) == p_string_body(
                v@.skip(j as int),
                acc@,
            ),
        decreases v@.len() - j,
    {
        if j == v.len() {
            proof {
                assert(v@.skip(j as int) =~= Seq::<char>::empty());
            }
            return None;
        }
        let c = v[j];
        proof {
            assert(v@.skip(j as int)[0] == c);
        }
        if c == '"' {
            proof {
                assert(v@.skip(j as int).drop_first() =~= v@.skip(j + 1));
            }
            return Some((acc, j + 1));
        } else if c == '\\' {
            if j + 1 == v.len() {
                proof {
                    assert(v@.skip(j as int).len() == 1);
                }
                return None;
            }
            acc.push(v[j + 1]);
            proof {
                assert(v@.skip(j as int).len() >= 2);
                assert(v@.skip(j as int)[1] == v@[j + 1]);
                assert(v@.skip(j as int).skip(2) =~= v@.skip(j + 2));
            }
            j += 2;
        } else {
            acc.push(c);
            proof {
                assert(v@.skip(j as int).drop_first() =~= v@.skip(j + 1));
            }
            j += 1;
        }
    }
}

/// Parses a quoted string from `start`, mirroring [`p_string`].
fn parse_string(v: &Vec<char>, start: usize) -> (r: Option<(String, usize)>)
    requires
        start <= v@.len(),
    ensures
        match r {
            Some((t, pos)) => start <= pos <= v@.len() && p_string(v@.skip(start as int)) == Some(
                (t@, v@.skip(pos as int)),
            ),
            None => p_string(v@.skip(start as int)) is None,
        },
{
    if start < v.len() && v[start] == '"' {
        proof {
            assert(v@.skip(start as int)[0] == '"');
            assert(v@.skip(start as int).drop_first() =~= v@.skip(start + 1));
        }
        parse_string_body(v, start + 1)
    } else {
        proof {
            if start < v@.len() {
                assert(v@.skip(start as int)[0] != '"');
            } else {
                assert(v@.skip(start as int).len() == 0);
            }
        }
        None
    }
}

/// Parses one record from `start`, mirroring [`p_pair`].
fn parse_pair(v: &Vec<char>, start: usize) -> (r: Option<(FavouriteRecord, usize)>)
    requires
        start <= v@.len(),
    ensures
        match r {
            Some((rec, pos)) => start < pos <= v@.len() && p_pair(v@.skip(start as int)) == Some(
                (rec@, v@.skip(pos as int)),
            ),
            None => p_pair(v@.skip(start as int)) is None,
        },
{
    if !(start < v.len() && v[start] == '[') {
        proof {
            if start < v@.len() {
                assert(v@.skip(start as int)[0] != '[');
            } else {
                assert(v@.skip(start as int).len() == 0);
            }
        }
        return None;
    }
    proof {
        assert(v@.skip(start as int)[0] == '[');
        assert(v@.skip(start as int).drop_first() =~= v@.skip(start + 1));
    }
    match parse_string(v, start + 1) {
        None => None,
        Some((a, p1)) => {
            if p1 < v.len() && v[p1] == ',' {
                proof {
                    assert(v@.skip(p1 as int)[0] == ',');
                    assert(v@.skip(p1 as int).drop_first() =~= v@.skip(p1 + 1));
                }
                match parse_string(v, p1 + 1) {
                    None => None,
                    Some((b, p2)) => {
                        if p2 < v.len() && v[p2] == ']' {
                            proof {
                                assert(v@.skip(p2 as int)[0] == ']');
                                assert(v@.skip(p2 as int).drop_first() =~= v@.skip(p2 + 1));
                            }
                            Some((FavouriteRecord { path: a, label: b }, p2 + 1))
                        } else {
                            proof {
                                if p2 < v@.len() {
                                    assert(v@.skip(p2 as int)[0] != ']');
                                } else {
                                    assert(v@.skip(p2 as int).len() == 0);
                                }
                            }
                            None
                        }
                    },
                }
            } else {
                proof {
                    if p1 < v@.len() {
                        assert(v@.skip(p1 as int)[0] != ',');
                    } else {
                        assert(v@.skip(p1 as int).len() == 0);
                    }
                }
                None
            }
        },
    }
}

/// Parses the records after the opening bracket, mirroring [`p_items`] with
/// fuel equal to the remaining input length.
fn parse_items(v: &Vec<char>, start: usize) -> (r: Option<(Vec<FavouriteRecord>, usize)>)
    requires
        start <= v@.len(),
    ensures
        match r {
            Some((rs, pos)) => start <= pos <= v@.len() && p_items(
                v@.skip(start as int),
                Seq::empty(),
                (v@.len() - start) as nat,
            ) == Some((rec_views(rs@), v@.skip(pos as int))),
            None => p_items(v@.skip(start as int), Seq::empty(), (v@.len() - start) as nat) is None,
        },
{
    let mut acc: Vec<FavouriteRecord> = Vec::new();
    let mut j = start;
    let ghost mut fuel: nat = (v@.len() - start) as nat;
    proof {
        assert(rec_views(acc@) =~= Seq::<(Seq<char>, Seq<char>)>::empty());
    }
    loop
        invariant
            start <= j <= v@.len(),
            fuel >= v@.len() - j,
            p_items(v@.skip(start as int), Seq::empty(), (v@.len() - start) as nat) == p_items(
                v@.skip(j as int),
                rec_views(acc@),
                fuel,
            ),
        decreases v@.len() - j,
    {
        let ghost pre_views = rec_views(acc@);
        match parse_pair(v, j) {
            None => {
                proof {
                    if fuel == 0 {
                    } else {
                        assert(p_items(v@.skip(j as int), pre_views, fuel) is None);
                    }
                }
                return None;
            },
            Some((rec, p1)) => {
                proof {
                    // a record consumes input, so the fuel cannot be exhausted here
                    assert(v@.skip(j as int).len() >= 1);
                    assert(fuel >= 1);
                }
                let ghost rv = rec@;
                acc.push(rec);
                proof {
                    assert(rec_views(acc@) =~= pre_views.push(rv));
                }
                if p1 < v.len() && v[p1] == ',' {
                    proof {
                        assert(v@.skip(p1 as int)[0] == ',');
                        assert(v@.skip(p1 as int).drop_first() =~= v@.skip(p1 + 1));
                        fuel = (fuel - 1) as nat;
                    }
                    j = p1 + 1;
                } else if p1 < v.len() && v[p1] == ']' {
                    proof {
                        assert(v@.skip(p1 as int)[0] == ']');
                        assert(v@.skip(p1 as int).drop_first() =~= v@.skip(p1 + 1));
                    }
                    return Some((acc, p1 + 1));
                } else {
                    proof {
                        if p1 < v@.len() {
                            assert(v@.skip(p1 as int)[0] != ',' && v@.skip(p1 as int)[0] != ']');
                        } else {
                            assert(v@.skip(p1 as int).len() == 0);
                        }
                    }
                    return None;
                }
            },
        }
    }
}

/// The records a stored text holds, in stored order, duplicates kept.
/// Fails — fatally for the favourites subsystem — where the text is not a
/// well-formed store; it never defaults to an empty sequence.
pub fn decode_favourites(text: &str) -> (r: Result<Vec<FavouriteRecord>, PersistenceError>)
    ensures
        r is Ok <==> dec_records(text@) is Some,
        r matches Ok(v) ==> dec_records(text@) == Some(rec_views(v@)),
        r matches Err(e) ==> e == PersistenceError::Malformed,
{
    let v = chars_of(text);
    if !(v.len() >= 1 && v[0] == '[') {
        return Err(PersistenceError::Malformed);
    }
    proof {
        assert(v@.drop_first() =~= v@.skip(1));
    }
    if v.len() >= 2 && v[1] == ']' {
        proof {
            assert(v@.skip(1)[0] == ']');
        }
        if v.len() == 2 {
            let empty: Vec<FavouriteRecord> = Vec::new();
            proof {
                assert(rec_views(empty@) =~= Seq::<(Seq<char>, Seq<char>)>::empty());
                assert(dec_records(text@) == Some(Seq::<(Seq<char>, Seq<char>)>::empty()));
            }
            return Ok(empty);
        } else {
            return Err(PersistenceError::Malformed);
        }
    }
    proof {
        if v@.len() >= 2 {
            assert(v@.skip(1)[0] != ']');
        } else {
            assert(v@.skip(1).len() == 0);
        }
    }
    match parse_items(&v, 1) {
        None => Err(PersistenceError::Malformed),
        Some((rs, pos)) => {
            if pos == v.len() {
                proof {
                    assert(v@.skip(pos as int).len() == 0);
                }
                Ok(rs)
            } else {
                Err(PersistenceError::Malformed)
            }
        },
    }
}

// ---------------------------------------------------------------------------
// The round trip: decoding an encoding yields the records back.
// ---------------------------------------------------------------------------

proof fn lemma_p_string_body_inverts(t: Seq<char>, acc: Seq<char>, rest: Seq<char>)
    ensures
        p_string_body(esc(t) + seq!['"'] + rest, acc) == Some((acc + t, rest)),
    decreases t.len(),
{
    let s = esc(t) + seq!['"'] + rest;
    if t.len() == 0 {
        assert(esc(t) =~= Seq::<char>::empty());
        assert(s =~= seq!['"'] + rest);
        assert(s[0] == '"');
        assert(s.drop_first() =~= rest);
        assert(acc + t =~= acc);
    } else {
        let c = t[0];
        let t2 = t.drop_first();
        assert(esc(t) == esc_char(c) + esc(t2));
        if c == '"' || c == '\\' {
            assert(s =~= seq!['\\', c] + (esc(t2) + seq!['"'] + rest));
            assert(s[0] == '\\');
            assert(s.len() >= 2);
            assert(s[1] == c);
            assert(s.skip(2) =~= esc(t2) + seq!['"'] + rest);
            lemma_p_string_body_inverts(t2, acc.push(c), rest);
            assert(acc.push(c) + t2 =~= acc + t);
        } else {
            assert(s =~= seq![c] + (esc(t2) + seq!['"'] + rest));
            assert(s[0] == c);
            assert(s.drop_first() =~= esc(t2) + seq!['"'] + rest);
            lemma_p_string_body_inverts(t2, acc.push(c), rest);
            assert(acc.push(c) + t2 =~= acc + t);
        }
    }
}

proof fn lemma_p_string_inverts(t: Seq<char>, rest: Seq<char>)
    ensures
        p_string(enc_string(t) + rest) == Some((t, rest)),
{
    let s = enc_string(t) + rest;
    assert(s[0] == '"');
    assert(s.len() >= 1);
    assert(s.drop_first() =~= esc(t) + seq!['"'] + rest);
    lemma_p_string_body_inverts(t, Seq::empty(), rest);
    assert(Seq::<char>::empty() + t =~= t);
}

proof fn lemma_p_pair_inverts(p: (Seq<char>, Seq<char>), rest: Seq<char>)
    ensures
        p_pair(enc_pair(p) + rest) == Some((p, rest)),
{
    let s = enc_pair(p) + rest;
    assert(s[0] == '[');
    assert(s.len() >= 1);
    let tail1 = seq![','] + enc_string(p.1) + seq![']'] + rest;
    assert(s.drop_first() =~= enc_string(p.0) + tail1);
    lemma_p_string_inverts(p.0, tail1);
    assert(tail1[0] == ',');
    assert(tail1.len() >= 1);
    let tail2 = seq![']'] + rest;
    assert(tail1.drop_first() =~= enc_string(p.1) + tail2);
    lemma_p_string_inverts(p.1, tail2);
    assert(tail2[0] == ']');
    assert(tail2.len() >= 1);
    assert(tail2.drop_first() =~= rest);
}

proof fn lemma_enc_items_len(rs: Seq<(Seq<char>, Seq<char>)>)
    ensures
        enc_items(rs).len() >= rs.len(),
    decreases rs.len(),
{
    if rs.len() > 1 {
        lemma_enc_items_len(rs.drop_first());
    }
}

proof fn lemma_p_items_inverts(rs: Seq<(Seq<char>, Seq<char>)>, acc: Seq<(Seq<char>, Seq<char>)>, fuel: nat)
    requires
        rs.len() >= 1,
        fuel >= rs.len(),
    ensures
        p_items(enc_items(rs) + seq![']'], acc, fuel) == Some((acc + rs, Seq::<char>::empty())),
    decreases rs.len(),
{
    let s = enc_items(rs) + seq![']'];
    if rs.len() == 1 {
        assert(s =~= enc_pair(rs[0]) + seq![']']);
        lemma_p_pair_inverts(rs[0], seq![']']);
        let r = seq![']'];
        assert(r[0] == ']');
        assert(r.drop_first() =~= Seq::<char>::empty());
        assert(acc.push(rs[0]) =~= acc + rs);
    } else {
        let rs2 = rs.drop_first();
        let tail = seq![','] + enc_items(rs2) + seq![']'];
        assert(s =~= enc_pair(rs[0]) + tail);
        lemma_p_pair_inverts(rs[0], tail);
        assert(tail[0] == ',');
        assert(tail.len() >= 1);
        assert(tail.drop_first() =~= enc_items(rs2) + seq![']']);
        lemma_p_items_inverts(rs2, acc.push(rs[0]), (fuel - 1) as nat);
        assert(acc.push(rs[0]) + rs2 =~= acc + rs);
    }
}

/// Law: the store round-trips — decoding the encoding of any record
/// sequence yields exactly that sequence, order preserved and duplicates
/// kept.
pub proof fn lemma_favourites_round_trip(rs: Seq<(Seq<char>, Seq<char>)>)
    ensures
        dec_records(enc_records(rs)) == Some(rs),
{
    let s = enc_records(rs);
    assert(s[0] == '[');
    assert(s.len() >= 1);
    let t = s.drop_first();
    assert(t =~= enc_items(rs) + seq![']']);
    if rs.len() == 0 {
        assert(enc_items(rs) =~= Seq::<char>::empty());
        assert(t =~= seq![']']);
        assert(t[0] == ']' && t.len() == 1);
    } else {
        assert(enc_items(rs)[0] == enc_pair(rs[0])[0]);
        assert(enc_pair(rs[0])[0] == '[');
        assert(t[0] == '[');
        lemma_enc_items_len(rs);
        assert(t.len() >= rs.len());
        lemma_p_items_inverts(rs, Seq::empty(), t.len());
        assert(Seq::<(Seq<char>, Seq<char>)>::empty() + rs =~= rs);
    }
}


// ---------------------------------------------------------------------------
// Removal: load, filter, save.
// ---------------------------------------------------------------------------

/// The subsequence of `s` selected by `keep`, order preserved.
pub open spec fn mask_keep(
    s: Seq<(Seq<char>, Seq<char>)>,
    keep: Seq<bool>,
) -> Seq<(Seq<char>, Seq<char>)>
    recommends
        keep.len() == s.len(),
    decreases s.len(),
{
    if s.len() == 0 {
        Seq::empty()
    } else {
        mask_keep(s.drop_last(), keep.drop_last()) + if keep[s.len() - 1] {
            seq![s.last()]
        } else {
            Seq::empty()
        }
    }
}

/// The records on which the predicate returned false, in order. Which
/// records leave is decided by one call of the predicate per record; the
/// mask in the contract records each answer.
pub fn remove_where<F: Fn(&FavouriteRecord) -> bool>(
    records: &Vec<FavouriteRecord>,
    pred: F,
) -> (r: Vec<FavouriteRecord>)
    requires
        forall|x: FavouriteRecord| #[trigger] call_requires(pred, (&x,)),
    ensures
        exists|keep: Seq<bool>|
            #![auto]
            {
                &&& keep.len() == records@.len()
                &&& rec_views(r@) == mask_keep(rec_views(records@), keep)
                &&& forall|i: int|
                    0 <= i < keep.len() ==> call_ensures(pred, (&records@[i],), !keep[i])
            },
{
    let mut out: Vec<FavouriteRecord> = Vec::new();
    let mut i: usize = 0;
    let ghost mut keep: Seq<bool> = Seq::empty();
    proof {
        assert(rec_views(out@) =~= mask_keep(rec_views(records@.take(0)), keep));
    }
    while i < records.len()
        invariant
            0 <= i <= records@.len(),
            keep.len() == i,
            rec_views(out@) == mask_keep(rec_views(records@.take(i as int)), keep),
            forall|j: int| 0 <= j < i ==> call_ensures(pred, (&records@[j],), !keep[j]),
            forall|x: FavouriteRecord| #[trigger] call_requires(pred, (&x,)),
        decreases records@.len() - i,
    {
        let ghost pre_out = rec_views(out@);
        let ghost pre_keep = keep;
        let rec = &records[i];
        let matched = pred(rec);
        if !matched {
            out.push(FavouriteRecord { path: rec.path.clone(), label: rec.label.clone() });
        }
        proof {
            keep = keep.push(!matched);
            let vs = rec_views(records@.take(i + 1));
            assert(vs.drop_last() =~= rec_views(records@.take(i as int)));
            assert(keep.drop_last() =~= pre_keep);
            assert(vs.last() == records@[i as int]@);
            if !matched {
                assert(rec_views(out@) =~= pre_out + seq![records@[i as int]@]);
            } else {
                assert(rec_views(out@) =~= pre_out + Seq::<(Seq<char>, Seq<char>)>::empty());
            }
            assert(rec_views(out@) == mask_keep(vs, keep));
        }
        i += 1;
    }
    proof {
        assert(records@.take(records@.len() as int) =~= records@);
    }
    out
}

/// The load–filter–save core of favourite removal: takes the current text
/// of the store and gives the text to store back, with every record on
/// which the predicate held removed and all others kept in order. Fails
/// exactly where the current text is malformed.
pub fn remove_from_file<F: Fn(&FavouriteRecord) -> bool>(contents: &str, pred: F) -> (r: Result<
    String,
    PersistenceError,
>)
    requires
        forall|x: FavouriteRecord| #[trigger] call_requires(pred, (&x,)),
    ensures
        r is Ok <==> dec_records(contents@) is Some,
        r matches Err(e) ==> e == PersistenceError::Malformed,
        r matches Ok(out) ==> exists|recs: Seq<FavouriteRecord>, keep: Seq<bool>|
            #![auto]
            {
                &&& dec_records(contents@) == Some(rec_views(recs))
                &&& keep.len() == recs.len()
                &&& out@ == enc_records(mask_keep(rec_views(recs), keep))
                &&& forall|i: int| 0 <= i < keep.len() ==> call_ensures(pred, (&recs[i],), !keep[i])
            },
{
    match decode_favourites(contents) {
        Err(e) => Err(e),
        Ok(v) => {
            let kept = remove_where(&v, pred);
            let s = encode_favourites(&kept);
            proof {
                let keep = choose|keep: Seq<bool>|
                    #![auto]
                    {
                        &&& keep.len() == v@.len()
                        &&& rec_views(kept@) == mask_keep(rec_views(v@), keep)
                        &&& forall|i: int|
                            0 <= i < keep.len() ==> call_ensures(pred, (&v@[i],), !keep[i])
                    };
                assert(dec_records(contents@) == Some(rec_views(v@)) && keep.len() == v@.len()
                    && s@ == enc_records(mask_keep(rec_views(v@), keep)) && forall|i: int|
                    0 <= i < keep.len() ==> call_ensures(pred, (&v@[i],), !keep[i]));
            }
            Ok(s)
        },
    }
}

} // verus!
