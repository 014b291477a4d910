//! The text format's first two lines: the header line and the metadata line
//! that declares the sources.
use vstd::prelude::*;

use crate::error::{Error, parse_error};
use crate::event::{Source, SourceModel};
use crate::text_num::{
    spec_dec, spec_parse_dec, lemma_parse_dec_roundtrip, lemma_dec_digits, is_dec_digit, push_char,
    push_dec, parse_dec, chars_of, parse_error_quoted,
};

verus! {

/// A Unicode white-space character, as `char::is_whitespace` defines it.
pub open spec fn is_whitespace(c: char) -> bool {
    ||| '\u{9}' <= c && c <= '\u{d}'
    ||| c == ' '
    ||| c == '\u{85}'
    ||| c == '\u{a0}'
    ||| c == '\u{1680}'
    ||| '\u{2000}' <= c && c <= '\u{200a}'
    ||| c == '\u{2028}'
    ||| c == '\u{2029}'
    ||| c == '\u{202f}'
    ||| c == '\u{205f}'
    ||| c == '\u{3000}'
}

/// The characters with trailing white space removed.
pub open spec fn spec_trim_end(s: Seq<char>) -> Seq<char>
    decreases s.len(),
{
    if s.len() > 0 && is_whitespace(s.last()) {
        spec_trim_end(s.drop_last())
    } else {
        s
    }
}

/// Whether a character is white space.
pub fn char_is_whitespace(c: char) -> (r: bool)
    ensures
        r == is_whitespace(c),
{
    ('\u{9}' <= c && c <= '\u{d}') || c == ' ' || c == '\u{85}' || c == '\u{a0}' || c == '\u{1680}'
        || ('\u{2000}' <= c && c <= '\u{200a}') || c == '\u{2028}' || c == '\u{2029}' || c
        == '\u{202f}' || c == '\u{205f}' || c == '\u{3000}'
}

/// The number of characters left once trailing white space is removed.
pub fn trim_end_len(s: &[char]) -> (n: usize)
    ensures
        n <= s@.len(),
        s@.take(n as int) == spec_trim_end(s@),
{
    let mut n = s.len();
    assert(s@.take(n as int) =~= s@);
    while n > 0 && char_is_whitespace(s[n - 1])
        invariant
            n <= s@.len(),
            spec_trim_end(s@.take(n as int)) == spec_trim_end(s@),
        decreases n,
    {
        assert(s@.take(n as int).drop_last() =~= s@.take(n - 1));
        n = n - 1;
    }
    n
}

/// The header line of the text format.
pub open spec fn spec_header_line() -> Seq<char> {
    seq![
        'H', 'D', 'R', ':', 'f', 'o', 'r', 'm', 'a', 't', '=', 'a', 'c', 'c', 'e', 'm', 'i', 'c',
        '/', '/', 'c', 't', 'x', 'p', '-', 't', 'x', 't', ',', 'v', 'e', 'r', '=', '1',
    ]
}

/// The characters of the header line.
pub fn header_line_chars() -> (v: Vec<char>)
    ensures
        v@ == spec_header_line(),
{
    let v = vec![
        'H', 'D', 'R', ':', 'f', 'o', 'r', 'm', 'a', 't', '=', 'a', 'c', 'c', 'e', 'm', 'i', 'c',
        '/', '/', 'c', 't', 'x', 'p', '-', 't', 'x', 't', ',', 'v', 'e', 'r', '=', '1',
    ];
    assert(v@ =~= spec_header_line());
    v
}

/// Appends the characters of a slice.
pub fn push_chars(out: &mut String, cs: &[char])
    ensures
        final(out)@ == old(out)@ + cs@,
{
    let ghost start = out@;
    for i in 0..cs.len()
        invariant
            out@ == start + cs@.take(i as int),
    {
        push_char(out, cs[i]);
        assert(cs@.take(i + 1) =~= cs@.take(i as int).push(cs@[i as int]));
    }
    assert(cs@.take(cs@.len() as int) =~= cs@);
}

/// Whether two character sequences are equal.
pub fn chars_eq(a: &[char], b: &[char]) -> (r: bool)
    ensures
        r == (a@ == b@),
{
    if a.len() != b.len() {
        return false;
    }
    for i in 0..a.len()
        invariant
            a@.len() == b@.len(),
            forall|j: int| 0 <= j < i ==> a@[j] == b@[j],
    {
        if a[i] != b[i] {
            return false;
        }
    }
    assert(a@ =~= b@);
    true
}

/// Checks that a line, trailing white space removed, is the header line;
/// anything else is a parse error.
pub fn check_header_line(line: &str) -> (r: Result<(), Error>)
    ensures
        r is Ok <==> spec_trim_end(line@) == spec_header_line(),
        r matches Err(e) ==> e is Parse,
{
    let cs = chars_of(line);
    let n = trim_end_len(cs.as_slice());
    let h = header_line_chars();
    if chars_eq(&cs.as_slice()[0..n], h.as_slice()) {
        Ok(())
    } else {
        Err(parse_error("invalid or unsupported header"))
    }
}

/// The characters that stand for one character of a name inside quotes:
/// backslash and double quote are escaped with a backslash.
pub open spec fn escape_char(c: char) -> Seq<char> {
    if c == '\\' {
        seq!['\\', '\\']
    } else if c == '"' {
        seq!['\\', '"']
    } else {
        seq![c]
    }
}

/// A name with its backslashes and double quotes escaped.
pub open spec fn spec_escape(s: Seq<char>) -> Seq<char> {
    s.map_values(|c: char| escape_char(c)).flatten()
}

/// The metadata entry of a source: `#`, its id in decimal, `="`, its
/// escaped name and a closing `"`.
pub open spec fn spec_meta_text_entry(s: SourceModel) -> Seq<char> {
    seq!['#'] + spec_dec(s.id as nat) + seq!['=', '"'] + spec_escape(s.name) + seq!['"']
}

/// The metadata entries of the sources, separated by commas.
pub open spec fn spec_meta_entries_text(ss: Seq<SourceModel>) -> Seq<char>
    decreases ss.len(),
{
    if ss.len() == 0 {
        seq![]
    } else if ss.len() == 1 {
        spec_meta_text_entry(ss[0])
    } else {
        spec_meta_text_entry(ss[0]) + seq![','] + spec_meta_entries_text(ss.drop_first())
    }
}

/// The metadata line: `META:` and the entries of the sources.
pub open spec fn spec_meta_line(ss: Seq<SourceModel>) -> Seq<char> {
    seq!['M', 'E', 'T', 'A', ':'] + spec_meta_entries_text(ss)
}

/// Adding a source at the end adds a comma (when there were entries before)
/// and its entry at the end of the entries text.
pub proof fn lemma_meta_entries_text_push(ss: Seq<SourceModel>, x: SourceModel)
    ensures
        spec_meta_entries_text(ss.push(x)) == (if ss.len() == 0 {
            spec_meta_text_entry(x)
        } else {
            spec_meta_entries_text(ss) + seq![','] + spec_meta_text_entry(x)
        }),
    decreases ss.len(),
{
    if ss.len() == 0 {
        assert(ss.push(x)[0] == x);
    } else if ss.len() == 1 {
        assert(ss.push(x).drop_first() =~= seq![x]);
        assert(spec_meta_entries_text(seq![x]) == spec_meta_text_entry(x));
        assert(ss.push(x)[0] == ss[0]);
    } else {
        lemma_meta_entries_text_push(ss.drop_first(), x);
        assert(ss.push(x).drop_first() =~= ss.drop_first().push(x));
        assert(ss.push(x)[0] == ss[0]);
        let a = spec_meta_text_entry(ss[0]);
        let r = spec_meta_entries_text(ss.drop_first());
        assert(a + seq![','] + (r + seq![','] + spec_meta_text_entry(x)) =~= (a + seq![','] + r)
            + seq![','] + spec_meta_text_entry(x));
    }
}

/// Appends a name with its backslashes and double quotes escaped.
pub fn push_escaped(out: &mut String, name: &str)
    ensures
        final(out)@ == old(out)@ + spec_escape(name@),
{
    let cs = chars_of(name);
    let ghost start = out@;
    for i in 0..cs.len()
        invariant
            cs@ == name@,
            out@ == start + spec_escape(cs@.take(i as int)),
    {
        let c = cs[i];
        if c == '\\' {
            push_char(out, '\\');
            push_char(out, '\\');
        } else if c == '"' {
            push_char(out, '\\');
            push_char(out, '"');
        } else {
            push_char(out, c);
        }
        proof {
            let f = |c: char| escape_char(c);
            assert(c == cs@[i as int]);
            assert(cs@.take(i + 1).map_values(f) =~= cs@.take(i as int).map_values(f).push(
                escape_char(c),
            ));
            cs@.take(i as int).map_values(f).lemma_flatten_push(escape_char(c));
        }
        assert(out@ =~= start + spec_escape(cs@.take(i + 1)));
    }
    assert(cs@.take(cs@.len() as int) =~= cs@);
}

/// Appends the metadata entry of a source.
pub fn push_meta_entry(out: &mut String, s: &Source)
    ensures
        final(out)@ == old(out)@ + spec_meta_text_entry(s.deep_view()),
{
    push_char(out, '#');
    push_dec(out, s.id as u64);
    push_char(out, '=');
    push_char(out, '"');
    push_escaped(out, s.name.as_str());
    push_char(out, '"');
    assert(final(out)@ =~= old(out)@ + spec_meta_text_entry(s.deep_view()));
}

/// Appends the metadata line that declares the sources (without a line end).
pub fn push_meta_line(out: &mut String, sources: &[Source])
    ensures
        final(out)@ == old(out)@ + spec_meta_line(sources.deep_view()),
{
    let ghost ss = sources.deep_view();
    push_char(out, 'M');
    push_char(out, 'E');
    push_char(out, 'T');
    push_char(out, 'A');
    push_char(out, ':');
    let ghost start = out@;
    assert(ss.take(0) =~= Seq::<SourceModel>::empty());
    for i in 0..sources.len()
        invariant
            ss == sources.deep_view(),
            out@ == start + spec_meta_entries_text(ss.take(i as int)),
    {
        if i > 0 {
            push_char(out, ',');
        }
        push_meta_entry(out, &sources[i]);
        proof {
            assert(ss.take(i + 1) =~= ss.take(i as int).push(ss[i as int]));
            lemma_meta_entries_text_push(ss.take(i as int), ss[i as int]);
        }
        assert(out@ =~= start + spec_meta_entries_text(ss.take(i + 1)));
    }
    assert(ss.take(sources.len() as int) =~= ss);
    assert(final(out)@ =~= old(out)@ + spec_meta_line(ss));
}

} // verus!

verus! {

/// The position of the first occurrence of a character.
pub open spec fn first_index_of<A>(s: Seq<A>, c: A) -> Option<nat>
    decreases s.len(),
{
    if s.len() == 0 {
        None
    } else if s[0] == c {
        Some(0)
    } else {
        match first_index_of(s.drop_first(), c) {
            Some(k) => Some(k + 1),
            None => None,
        }
    }
}

/// What the first occurrence of a character is.
pub proof fn lemma_first_index_of<A>(s: Seq<A>, c: A)
    ensures
        first_index_of(s, c) matches Some(k) ==> k < s.len() && s[k as int] == c && forall|j: int|
            0 <= j < k ==> s[j] != c,
        first_index_of(s, c) is None ==> forall|j: int| 0 <= j < s.len() ==> s[j] != c,
    decreases s.len(),
{
    if s.len() > 0 && s[0] != c {
        lemma_first_index_of(s.drop_first(), c);
        assert forall|j: int| 0 < j < s.len() implies s[j] == s.drop_first()[j - 1] by {}
    }
}

/// The first occurrence of a character that follows a prefix without it is
/// right after the prefix.
pub proof fn lemma_first_index_after<A>(a: Seq<A>, c: A, b: Seq<A>)
    requires
        forall|j: int| 0 <= j < a.len() ==> a[j] != c,
    ensures
        first_index_of(a + seq![c] + b, c) == Some(a.len()),
    decreases a.len(),
{
    if a.len() > 0 {
        lemma_first_index_after(a.drop_first(), c, b);
        assert((a + seq![c] + b).drop_first() =~= a.drop_first() + seq![c] + b);
    }
}

/// The content of a quoted name up to its closing unescaped double quote:
/// the name with escapes removed and the number of characters read,
/// closing quote included. `None` when the quote is never closed or a
/// backslash escapes anything but a backslash or a double quote.
pub open spec fn spec_unquote(s: Seq<char>) -> Option<(Seq<char>, nat)>
    decreases s.len(),
{
    if s.len() == 0 {
        None
    } else if s[0] == '"' {
        Some((seq![], 1))
    } else if s[0] == '\\' {
        if s.len() < 2 {
            None
        } else if s[1] == '"' || s[1] == '\\' {
            match spec_unquote(s.skip(2)) {
                Some((n, k)) => Some((seq![s[1]] + n, k + 2)),
                None => None,
            }
        } else {
            None
        }
    } else {
        match spec_unquote(s.skip(1)) {
            Some((n, k)) => Some((seq![s[0]] + n, k + 1)),
            None => None,
        }
    }
}

/// A quoted name reads at least its closing quote and no more than there is.
pub proof fn lemma_unquote_len(s: Seq<char>)
    ensures
        spec_unquote(s) matches Some((n, k)) ==> 1 <= k <= s.len(),
    decreases s.len(),
{
    if s.len() > 0 && s[0] != '"' {
        if s[0] == '\\' {
            if s.len() >= 2 {
                lemma_unquote_len(s.skip(2));
            }
        } else {
            lemma_unquote_len(s.skip(1));
        }
    }
}

/// The sources that the text after `META:` declares: entries `#id="name"`
/// separated by commas. Reading stops without error at the end of the text,
/// after a trailing comma, or at anything but a comma after an entry.
pub open spec fn spec_parse_meta(s: Seq<char>) -> Option<Seq<SourceModel>>
    decreases s.len(),
{
    if s.len() == 0 {
        Some(seq![])
    } else if s[0] != '#' {
        None
    } else {
        match first_index_of(s.skip(1), '=') {
            None => None,
            Some(k) => match spec_parse_dec(s.subrange(1, 1 + k as int), 255) {
                None => None,
                Some(id) => {
                    proof {
                        lemma_first_index_of(s.skip(1), '=');
                    }
                    let a = s.skip(2 + k as int);
                    if a.len() == 0 || a[0] != '"' {
                        None
                    } else {
                        match spec_unquote(a.skip(1)) {
                            None => None,
                            Some((name, m)) => {
                                proof {
                                    lemma_unquote_len(a.skip(1));
                                }
                                let rest = a.skip(1 + m as int);
                                let entry = SourceModel { id: id as u8, name };
                                if rest.len() > 0 && rest[0] == ',' {
                                    match spec_parse_meta(rest.skip(1)) {
                                        Some(r) => Some(seq![entry] + r),
                                        None => None,
                                    }
                                } else {
                                    Some(seq![entry])
                                }
                            },
                        }
                    }
                },
            },
        }
    }
}

} // verus!

verus! {

/// Prepends already-read sources to the outcome of reading the rest.
pub open spec fn prepend_opt(acc: Seq<SourceModel>, r: Option<Seq<SourceModel>>) -> Option<
    Seq<SourceModel>,
> {
    match r {
        Some(rest) => Some(acc + rest),
        None => None,
    }
}

/// Prepends already-read name characters to the outcome of reading the rest
/// of a quoted name.
pub open spec fn prepend_name(acc: Seq<char>, r: Option<(Seq<char>, nat)>, d: nat) -> Option<
    (Seq<char>, nat),
> {
    match r {
        Some((n, k)) => Some((acc + n, k + d)),
        None => None,
    }
}

/// The position of the first occurrence of `c` at or after `from`.
pub fn find_char(cs: &[char], from: usize, c: char) -> (r: Option<usize>)
    requires
        from <= cs@.len(),
    ensures
        match first_index_of(cs@.skip(from as int), c) {
            Some(k) => r matches Some(p) && p == from + k,
            None => r is None,
        },
{
    let mut i = from;
    while i < cs.len()
        invariant
            from <= i <= cs@.len(),
            forall|j: int| from <= j < i ==> cs@[j] != c,
        decreases cs.len() - i,
    {
        if cs[i] == c {
            proof {
                lemma_first_index_of(cs@.skip(from as int), c);
                let s = cs@.skip(from as int);
                assert(s[i - from] == c);
                match first_index_of(s, c) {
                    Some(k) => {
                        assert(k == i - from) by {
                            if k < i - from {
                                assert(cs@[from + k] == c);
                            }
                        }
                    },
                    None => {},
                }
            }
            return Some(i);
        }
        i = i + 1;
    }
    proof {
        lemma_first_index_of(cs@.skip(from as int), c);
        let s = cs@.skip(from as int);
        if first_index_of(s, c) is Some {
            let k = first_index_of(s, c)->0;
            assert(cs@[from + k] == c);
        }
    }
    None
}

/// Reads the content of a quoted name starting at `from`: the unescaped name
/// and the position just after the closing quote.
fn unquote(cs: &[char], from: usize) -> (r: Option<(String, usize)>)
    requires
        from <= cs@.len(),
    ensures
        match spec_unquote(cs@.skip(from as int)) {
            Some((n, m)) => r matches Some((s, e)) && s@ == n && e == from + m,
            None => r is None,
        },
{
    let mut name = String::new();
    let mut i = from;
    assert(cs@.skip(from as int) =~= cs@.skip(i as int));
    loop
        invariant
            from <= i <= cs@.len(),
            spec_unquote(cs@.skip(from as int)) == prepend_name(
                name@,
                spec_unquote(cs@.skip(i as int)),
                (i - from) as nat,
            ),
        decreases cs.len() - i,
    {
        let ghost s = cs@.skip(i as int);
        if i >= cs.len() {
            return None;
        }
        let c = cs[i];
        assert(s[0] == c);
        if c == '"' {
            assert(name@ + Seq::<char>::empty() =~= name@);
            return Some((name, i + 1));
        } else if c == '\\' {
            if i + 1 >= cs.len() {
                return None;
            }
            let d = cs[i + 1];
            assert(s[1] == d);
            if d == '"' || d == '\\' {
                let ghost before = name@;
                push_char(&mut name, d);
                assert(s.skip(2) =~= cs@.skip(i + 2));
                proof {
                    match spec_unquote(cs@.skip(i + 2)) {
                        Some((n, k)) => {
                            assert(before + (seq![d] + n) =~= name@ + n);
                        },
                        None => {},
                    }
                }
                i = i + 2;
            } else {
                return None;
            }
        } else {
            let ghost before = name@;
            push_char(&mut name, c);
            assert(s.skip(1) =~= cs@.skip(i + 1));
            proof {
                match spec_unquote(cs@.skip(i + 1)) {
                    Some((n, k)) => {
                        assert(before + (seq![c] + n) =~= name@ + n);
                    },
                    None => {},
                }
            }
            i = i + 1;
        }
    }
}

fn parse_meta_chars(cs: &[char]) -> (r: Result<Vec<Source>, Error>)
    ensures
        match spec_parse_meta(cs@) {
            Some(ss) => r matches Ok(v) && v.deep_view() == ss,
            None => r matches Err(e) && e is Parse,
        },
{
    let mut sources: Vec<Source> = Vec::new();
    let mut i: usize = 0;
    let len = cs.len();
    assert(cs@.skip(0) =~= cs@);
    assert(sources.deep_view() + spec_parse_meta(cs@).unwrap_or(seq![]) =~= spec_parse_meta(
        cs@,
    ).unwrap_or(seq![]));
    loop
        invariant
            i <= len == cs@.len(),
            spec_parse_meta(cs@) == prepend_opt(sources.deep_view(), spec_parse_meta(cs@.skip(i as int))),
        decreases len - i,
    {
        let ghost s = cs@.skip(i as int);
        if i == len {
            assert(sources.deep_view() + Seq::<SourceModel>::empty() =~= sources.deep_view());
            return Ok(sources);
        }
        assert(s[0] == cs@[i as int]);
        if cs[i] != '#' {
            return Err(parse_error_quoted("expected '#', got ", &cs[i..i + 1]));
        }
        assert(s.skip(1) =~= cs@.skip(i + 1));
        let eq = match find_char(cs, i + 1, '=') {
            Some(p) => p,
            None => {
                return Err(parse_error("unexpected end in source id"));
            },
        };
        proof {
            lemma_first_index_of(s.skip(1), '=');
        }
        let ghost k = (eq - i - 1) as nat;
        assert(s.subrange(1, 1 + k as int) =~= cs@.subrange(i + 1, eq as int));
        let id = match parse_dec(&cs[i + 1..eq], 255) {
            Some(v) => v as u8,
            None => {
                return Err(parse_error_quoted("invalid source id: ", &cs[i + 1..eq]));
            },
        };
        let j = eq + 1;
        assert(s.skip(2 + k as int) =~= cs@.skip(j as int));
        if j >= len || cs[j] != '"' {
            return Err(parse_error("expected '\"' after '='"));
        }
        assert(cs@.skip(j as int).skip(1) =~= cs@.skip(j + 1));
        let (name, end) = match unquote(cs, j + 1) {
            Some(p) => p,
            None => {
                return Err(parse_error("unterminated or invalid source name"));
            },
        };
        proof {
            lemma_unquote_len(cs@.skip(j + 1));
        }
        let ghost before = sources.deep_view();
        let ghost entry = SourceModel { id, name: name@ };
        sources.push(Source { id, name });
        assert(sources.deep_view() =~= before.push(entry));
        assert(cs@.skip(j as int).skip(1 + (end - j - 1)) =~= cs@.skip(end as int));
        if end < len && cs[end] == ',' {
            assert(cs@.skip(end as int).skip(1) =~= cs@.skip(end + 1));
            proof {
                match spec_parse_meta(cs@.skip(end + 1)) {
                    Some(r) => {
                        assert(before + (seq![entry] + r) =~= before.push(entry) + r);
                    },
                    None => {},
                }
            }
            i = end + 1;
        } else {
            assert(before + seq![entry] =~= before.push(entry));
            return Ok(sources);
        }
    }
}

/// Reads the sources declared by the text after `META:`: entries
/// `#id="name"` separated by commas, where inside the quotes a backslash
/// escapes a backslash or a double quote. Reading stops without error at the
/// end of the text, after a trailing comma, or at anything but a comma after
/// an entry; every other departure from this form is a parse error.
pub fn parse_meta_entries(s: &str) -> (r: Result<Vec<Source>, Error>)
    ensures
        match spec_parse_meta(s@) {
            Some(ss) => r matches Ok(v) && v.deep_view() == ss,
            None => r matches Err(e) && e is Parse,
        },
{
    let cs = chars_of(s);
    parse_meta_chars(cs.as_slice())
}

/// The sources that a metadata line declares, once trailing white space is
/// removed: `None` when the line does not start with `META:`.
pub open spec fn spec_parse_meta_line(line: Seq<char>) -> Option<Seq<SourceModel>> {
    let t = spec_trim_end(line);
    if t.len() >= 5 && t.subrange(0, 5) == seq!['M', 'E', 'T', 'A', ':'] {
        spec_parse_meta(t.skip(5))
    } else {
        None
    }
}

/// Reads the metadata line; a line that does not start with `META:` or whose
/// entries are malformed is a parse error.
pub fn parse_metadata_line(line: &str) -> (r: Result<Vec<Source>, Error>)
    ensures
        match spec_parse_meta_line(line@) {
            Some(ss) => r matches Ok(v) && v.deep_view() == ss,
            None => r matches Err(e) && e is Parse,
        },
{
    let cs = chars_of(line);
    let n = trim_end_len(cs.as_slice());
    let ghost t = spec_trim_end(line@);
    if !(n >= 5 && cs[0] == 'M' && cs[1] == 'E' && cs[2] == 'T' && cs[3] == 'A' && cs[4] == ':') {
        proof {
            if t.len() >= 5 && t.subrange(0, 5) == seq!['M', 'E', 'T', 'A', ':'] {
                assert(t.subrange(0, 5)[0] == t[0]);
                assert(t.subrange(0, 5)[1] == t[1]);
                assert(t.subrange(0, 5)[2] == t[2]);
                assert(t.subrange(0, 5)[3] == t[3]);
                assert(t.subrange(0, 5)[4] == t[4]);
            }
        }
        return Err(parse_error("expected META section"));
    }
    assert(t.subrange(0, 5) =~= seq!['M', 'E', 'T', 'A', ':']);
    assert(cs@.subrange(5, n as int) =~= t.skip(5));
    parse_meta_chars(&cs.as_slice()[5..n])
}

} // verus!

verus! {

/// Escaping a name and closing the quote reads back as the name.
pub proof fn lemma_unquote_escape(name: Seq<char>, tail: Seq<char>)
    ensures
        spec_unquote(spec_escape(name) + seq!['"'] + tail) == Some(
            (name, spec_escape(name).len() + 1),
        ),
    decreases name.len(),
{
    let f = |c: char| escape_char(c);
    let s = spec_escape(name) + seq!['"'] + tail;
    if name.len() == 0 {
        assert(name.map_values(f) =~= Seq::<Seq<char>>::empty());
        assert(spec_escape(name) =~= Seq::<char>::empty());
        assert(s[0] == '"');
        assert(name =~= seq![]);
    } else {
        let rest = name.drop_first();
        lemma_unquote_escape(rest, tail);
        let m = name.map_values(f);
        assert(m.drop_first() =~= rest.map_values(f));
        assert(spec_escape(name) == m.first() + m.drop_first().flatten());
        assert(spec_escape(name) =~= escape_char(name[0]) + spec_escape(rest));
        let c = name[0];
        let e = escape_char(c);
        assert(s =~= e + (spec_escape(rest) + seq!['"'] + tail));
        if c == '\\' || c == '"' {
            assert(s.skip(2) =~= spec_escape(rest) + seq!['"'] + tail);
        } else {
            assert(s.skip(1) =~= spec_escape(rest) + seq!['"'] + tail);
        }
        assert(seq![c] + rest =~= name);
    }
}

/// The first entry's text and then, when there are more, a comma and the
/// text of the others.
pub proof fn lemma_meta_entries_text_front(ss: Seq<SourceModel>)
    requires
        ss.len() > 0,
    ensures
        spec_meta_entries_text(ss) == spec_meta_text_entry(ss[0]) + (if ss.len() == 1 {
            Seq::<char>::empty()
        } else {
            seq![','] + spec_meta_entries_text(ss.drop_first())
        }),
{
    if ss.len() == 1 {
        assert(spec_meta_text_entry(ss[0]) + Seq::<char>::empty() =~= spec_meta_text_entry(ss[0]));
    } else {
        assert(spec_meta_text_entry(ss[0]) + seq![','] + spec_meta_entries_text(ss.drop_first())
            =~= spec_meta_text_entry(ss[0]) + (seq![','] + spec_meta_entries_text(
            ss.drop_first(),
        )));
    }
}

/// Reading back the metadata entries written for sources gives the sources.
#[verifier::spinoff_prover]
#[verifier::rlimit(40)]
pub proof fn lemma_parse_meta_roundtrip(ss: Seq<SourceModel>)
    ensures
        spec_parse_meta(spec_meta_entries_text(ss)) == Some(ss),
    decreases ss.len(),
{
    if ss.len() == 0 {
        assert(ss =~= seq![]);
    } else {
        let x = ss[0];
        lemma_meta_entries_text_front(ss);
        let tail: Seq<char> = if ss.len() == 1 {
            Seq::<char>::empty()
        } else {
            seq![','] + spec_meta_entries_text(ss.drop_first())
        };
        let d = spec_dec(x.id as nat);
        let esc = spec_escape(x.name);
        let s = spec_meta_entries_text(ss);
        assert(s =~= seq!['#'] + d + seq!['=', '"'] + esc + seq!['"'] + tail);
        lemma_dec_digits(x.id as nat);
        assert forall|j: int| 0 <= j < d.len() implies d[j] != '=' by {
            assert(is_dec_digit(d[j]));
        }
        assert(s.skip(1) =~= d + seq!['='] + (seq!['"'] + esc + seq!['"'] + tail));
        lemma_first_index_after(d, '=', seq!['"'] + esc + seq!['"'] + tail);
        let k = d.len();
        assert(s.subrange(1, 1 + k as int) =~= d);
        lemma_parse_dec_roundtrip(x.id as nat, 255);
        let a = s.skip(2 + k as int);
        assert(a =~= seq!['"'] + esc + seq!['"'] + tail);
        assert(a.skip(1) =~= esc + seq!['"'] + tail);
        lemma_unquote_escape(x.name, tail);
        assert(a.skip(1 + (esc.len() + 1) as int) =~= tail);
        let entry = SourceModel { id: x.id, name: x.name };
        if ss.len() == 1 {
            assert(seq![entry] =~= ss);
        } else {
            lemma_parse_meta_roundtrip(ss.drop_first());
            assert(tail.skip(1) =~= spec_meta_entries_text(ss.drop_first()));
            assert(seq![entry] + ss.drop_first() =~= ss);
        }
    }
}

/// A line that does not end in white space keeps its characters when a line
/// end is added and trailing white space is removed.
pub proof fn lemma_trim_line_end(line: Seq<char>)
    requires
        line.len() > 0,
        !is_whitespace(line.last()),
    ensures
        spec_trim_end(line.push('\n')) == line,
{
    assert(is_whitespace('\n'));
    assert(line.push('\n').last() == '\n');
    assert(line.push('\n').drop_last() =~= line);
    assert(spec_trim_end(line) == line);
}

/// The metadata line, with its line end, reads back as the sources.
pub proof fn lemma_meta_line_roundtrip(ss: Seq<SourceModel>)
    ensures
        spec_parse_meta_line(spec_meta_line(ss).push('\n')) == Some(ss),
{
    let l = spec_meta_line(ss);
    lemma_parse_meta_roundtrip(ss);
    if ss.len() == 0 {
        assert(l.last() == ':');
    } else {
        lemma_meta_entries_text_front(ss);
        let t = spec_meta_entries_text(ss);
        if ss.len() == 1 {
            assert(t.last() == '"');
        } else {
            lemma_meta_entries_text_nonempty_end(ss.drop_first());
        }
        assert(l.last() == t.last());
    }
    lemma_trim_line_end(l);
    assert(l.subrange(0, 5) =~= seq!['M', 'E', 'T', 'A', ':']);
    assert(l.skip(5) =~= spec_meta_entries_text(ss));
}

/// The entries text of at least one source ends with a closing quote.
pub proof fn lemma_meta_entries_text_nonempty_end(ss: Seq<SourceModel>)
    requires
        ss.len() > 0,
    ensures
        spec_meta_entries_text(ss).len() > 0,
        spec_meta_entries_text(ss).last() == '"',
    decreases ss.len(),
{
    if ss.len() > 1 {
        lemma_meta_entries_text_nonempty_end(ss.drop_first());
    }
}

/// The header line, with its line end, passes the header check.
pub proof fn lemma_header_line_roundtrip()
    ensures
        spec_trim_end(spec_header_line().push('\n')) == spec_header_line(),
{
    lemma_trim_line_end(spec_header_line());
}

} // verus!
