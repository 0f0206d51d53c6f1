use vstd::prelude::*;

verus! {

// ---------------------------------------------------------------------------
// Substring search, specified over character sequences.
// ---------------------------------------------------------------------------

/// `sep` occurs in `s` starting at index `i`.
pub open spec fn sep_at(s: Seq<char>, sep: Seq<char>, i: int) -> bool {
    0 <= i && i + sep.len() <= s.len() && s.subrange(i, i + sep.len() as int) == sep
}

/// Index of the first occurrence of `sep` in `s`, if any.
pub open spec fn find_first(s: Seq<char>, sep: Seq<char>) -> Option<int>
    decreases s.len(),
{
    if s.len() < sep.len() || sep.len() == 0 {
        None
    } else if s.subrange(0, sep.len() as int) == sep {
        Some(0)
    } else {
        match find_first(s.subrange(1, s.len() as int), sep) {
            Some(i) => Some(i + 1),
            None => None,
        }
    }
}

/// `find_first` returns the least index at which `sep` occurs, and `None`
/// exactly when `sep` occurs nowhere.
pub proof fn lemma_find_first(s: Seq<char>, sep: Seq<char>)
    requires
        sep.len() >= 1,
    ensures
        match find_first(s, sep) {
            Some(i) => sep_at(s, sep, i) && (forall|j: int| 0 <= j < i ==> !sep_at(s, sep, j)),
            None => forall|j: int| !sep_at(s, sep, j),
        },
    decreases s.len(),
{
    if s.len() < sep.len() {
    } else if s.subrange(0, sep.len() as int) == sep {
    } else {
        let t = s.subrange(1, s.len() as int);
        lemma_find_first(t, sep);
        assert forall|j: int| sep_at(t, sep, j) == sep_at(s, sep, j + 1) by {
            if 0 <= j && j + sep.len() <= t.len() {
                let u = t.subrange(j, j + sep.len() as int);
                let v = s.subrange(j + 1, j + 1 + sep.len() as int);
                assert forall|k: int| 0 <= k < sep.len() implies u[k] == v[k] by {
                    assert(u[k] == t[j + k]);
                    assert(t[j + k] == s[1 + j + k]);
                    assert(v[k] == s[j + 1 + k]);
                }
                assert(u =~= v);
            }
        }
        assert(!sep_at(s, sep, 0));
        match find_first(t, sep) {
            Some(i) => {
                assert(sep_at(t, sep, i));
                assert(sep_at(s, sep, i + 1));
                assert forall|j: int| 0 <= j < i + 1 implies !sep_at(s, sep, j) by {
                    if j >= 1 {
                        assert(!sep_at(t, sep, j - 1));
                    }
                }
            },
            None => {
                assert forall|j: int| !sep_at(s, sep, j) by {
                    if j >= 1 {
                        assert(!sep_at(t, sep, j - 1));
                    }
                }
            },
        }
    }
}

/// Index of the first occurrence of `sep` in `s`, or `None` when `sep` does
/// not occur.
pub fn find_sub(s: &str, sep: &str) -> (r: Option<usize>)
    requires
        sep@.len() >= 1,
    ensures
        match r {
            Some(i) => find_first(s@, sep@) == Some(i as int),
            None => find_first(s@, sep@) is None,
        },
{
    let n = s.unicode_len();
    let m = sep.unicode_len();
    if n < m {
        return None;
    }
    let mut i: usize = 0;
    while i <= n - m
        invariant
            n == s@.len(),
            m == sep@.len(),
            1 <= m <= n,
            i <= n - m + 1,
            forall|j: int| 0 <= j < i ==> !sep_at(s@, sep@, j),
        decreases n - m + 1 - i,
    {
        let mut k: usize = 0;
        let mut matched = true;
        while k < m
            invariant
                n == s@.len(),
                m == sep@.len(),
                i + m <= n,
                k <= m,
                matched <==> (forall|t: int| 0 <= t < k ==> s@[i + t] == sep@[t]),
            decreases m - k,
        {
            let a = s.get_char(i + k);
            let b = sep.get_char(k);
            matched = matched && (a == b);
            k += 1;
        }
        if matched {
            proof {
                assert(s@.subrange(i as int, i + m) =~= sep@);
                assert(sep_at(s@, sep@, i as int));
                lemma_find_first(s@, sep@);
                match find_first(s@, sep@) {
                    Some(i0) => {
                        if i0 < i as int {
                            assert(!sep_at(s@, sep@, i0));
                        }
                        if i0 > i as int {
                            assert(!sep_at(s@, sep@, i as int));
                        }
                    },
                    None => {
                        assert(!sep_at(s@, sep@, i as int));
                    },
                }
            }
            return Some(i);
        }
        proof {
            if sep_at(s@, sep@, i as int) {
                assert forall|t: int| 0 <= t < m implies s@[i + t] == sep@[t] by {
                    assert(s@.subrange(i as int, i + m)[t] == s@[i + t]);
                }
            }
        }
        i += 1;
    }
    proof {
        assert forall|j: int| !sep_at(s@, sep@, j) by {
            if 0 <= j && j + m <= n {
                assert(j < i);
            }
        }
        lemma_find_first(s@, sep@);
        if find_first(s@, sep@) is Some {
            assert(sep_at(s@, sep@, find_first(s@, sep@)->Some_0));
        }
    }
    None
}

/// Character-for-character string equality.
pub fn str_eq(a: &str, b: &str) -> (r: bool)
    ensures
        r == (a@ == b@),
{
    let n = a.unicode_len();
    let m = b.unicode_len();
    if n != m {
        return false;
    }
    let mut k: usize = 0;
    while k < n
        invariant
            n == a@.len(),
            n == b@.len(),
            k <= n,
            forall|t: int| 0 <= t < k ==> a@[t] == b@[t],
        decreases n - k,
    {
        if a.get_char(k) != b.get_char(k) {
            return false;
        }
        k += 1;
    }
    proof {
        assert(a@ =~= b@);
    }
    true
}

// ---------------------------------------------------------------------------
// The numeric id field.
// ---------------------------------------------------------------------------

pub open spec fn is_digit(c: char) -> bool {
    ('0' as u32) <= (c as u32) && (c as u32) <= ('9' as u32)
}

pub open spec fn digit_val(c: char) -> nat {
    ((c as u32) - ('0' as u32)) as nat
}

/// Value of a sequence of decimal digits, most significant first.
pub open spec fn digits_value(s: Seq<char>) -> nat
    decreases s.len(),
{
    if s.len() == 0 {
        0
    } else {
        digits_value(s.drop_last()) * 10 + digit_val(s.last())
    }
}

pub open spec fn all_digits(s: Seq<char>) -> bool {
    forall|k: int| 0 <= k < s.len() ==> is_digit(s[k])
}

/// The digits of an id field, with an optional leading plus sign stripped,
/// as the standard integer parser accepts it.
pub open spec fn count_body(s: Seq<char>) -> Seq<char> {
    if s.len() > 0 && s[0] == '+' {
        s.subrange(1, s.len() as int)
    } else {
        s
    }
}

/// The id field is well formed: at least one digit, all digits.
pub open spec fn is_count(s: Seq<char>) -> bool {
    count_body(s).len() > 0 && all_digits(count_body(s))
}

pub open spec fn count_value(s: Seq<char>) -> nat {
    digits_value(count_body(s))
}

/// Extending a digit string can only grow its value.
proof fn lemma_digits_prefix(s: Seq<char>, i: int)
    requires
        0 <= i <= s.len(),
    ensures
        digits_value(s.subrange(0, i)) <= digits_value(s),
    decreases s.len() - i,
{
    if i == s.len() {
        assert(s.subrange(0, i) =~= s);
    } else {
        lemma_digits_prefix(s, i + 1);
        let a = s.subrange(0, i);
        let b = s.subrange(0, i + 1);
        assert(b.drop_last() =~= a);
        assert(digits_value(b) == digits_value(a) * 10 + digit_val(s[i]));
    }
}

/// Parse the id field as the standard parser would: optional leading `+`,
/// then one or more decimal digits; `None` on anything else or on a value
/// too large for `usize`.
pub fn parse_count(s: &str) -> (r: Option<usize>)
    ensures
        match r {
            Some(v) => is_count(s@) && v as nat == count_value(s@),
            None => !is_count(s@) || count_value(s@) > usize::MAX,
        },
{
    let n = s.unicode_len();
    let start: usize = if n > 0 && s.get_char(0) == '+' {
        1
    } else {
        0
    };
    let ghost body = count_body(s@);
    proof {
        assert(body =~= s@.subrange(start as int, n as int));
    }
    if start >= n {
        return None;
    }
    let mut acc: usize = 0;
    let mut k: usize = start;
    while k < n
        invariant
            n == s@.len(),
            start <= k <= n,
            start < n,
            body == count_body(s@),
            body == s@.subrange(start as int, n as int),
            all_digits(body.subrange(0, k - start)),
            acc as nat == digits_value(body.subrange(0, k - start)),
        decreases n - k,
    {
        let c = s.get_char(k);
        let u = c as u32;
        if u < 48 || u > 57 {
            proof {
                assert(body[k - start] == c);
                assert(0 <= k - start < body.len() && !is_digit(body[k - start]));
                assert(!all_digits(body));
            }
            return None;
        }
        let d = (u - 48) as usize;
        let ghost pre = body.subrange(0, k - start);
        let ghost ext = body.subrange(0, k - start + 1);
        proof {
            assert(ext.drop_last() =~= pre);
            assert(ext.last() == body[k - start]);
            assert(body[k - start] == c);
            assert(digits_value(ext) == digits_value(pre) * 10 + digit_val(c));
        }
        let step = match acc.checked_mul(10) {
            Some(t) => t.checked_add(d),
            None => None,
        };
        match step {
            Some(next) => {
                acc = next;
            },
            None => {
                proof {
                    assert(digits_value(pre) == acc as nat);
                    assert(digits_value(ext) == acc as nat * 10 + digit_val(c));
                    assert(digit_val(c) == d as nat);
                    assert(digits_value(ext) > usize::MAX);
                    lemma_digits_prefix(body, k - start + 1);
                    assert(count_value(s@) >= digits_value(ext));
                }
                return None;
            },
        }
        k += 1;
    }
    proof {
        assert(body.subrange(0, n - start) =~= body);
    }
    Some(acc)
}

// ---------------------------------------------------------------------------
// One catalog line.
// ---------------------------------------------------------------------------

/// The fixed separator between the id field and the rest of a line.
pub open spec fn dash_sep() -> Seq<char> {
    seq![' ', '-', ' ']
}

/// The fixed separator between the description and the span.
pub open spec fn at_sep() -> Seq<char> {
    seq![' ', '@', ' ']
}

pub open spec fn has_count_sep(s: Seq<char>) -> bool {
    find_first(s, dash_sep()) is Some
}

/// The id field: everything before the first ` - `.
pub open spec fn spec_count_str(s: Seq<char>) -> Seq<char> {
    s.subrange(0, find_first(s, dash_sep())->Some_0)
}

/// Everything after the first ` - `.
pub open spec fn spec_rest(s: Seq<char>) -> Seq<char> {
    s.subrange(find_first(s, dash_sep())->Some_0 + 3, s.len() as int)
}

pub open spec fn has_span_sep(s: Seq<char>) -> bool {
    find_first(spec_rest(s), at_sep()) is Some
}

/// The description: the part of the rest before the first ` @ `.
pub open spec fn spec_description(s: Seq<char>) -> Seq<char> {
    spec_rest(s).subrange(0, find_first(spec_rest(s), at_sep())->Some_0)
}

/// The span: the part of the rest after the first ` @ `.
pub open spec fn spec_span(s: Seq<char>) -> Seq<char> {
    spec_rest(s).subrange(
        find_first(spec_rest(s), at_sep())->Some_0 + 3,
        spec_rest(s).len() as int,
    )
}

/// A catalog line parses: both separators occur, the id field is numeric,
/// and its value fits the machine.
pub open spec fn line_well_formed(s: Seq<char>) -> bool {
    &&& has_count_sep(s)
    &&& has_span_sep(s)
    &&& is_count(spec_count_str(s))
    &&& count_value(spec_count_str(s)) <= usize::MAX
}

/// One entry of the mutation catalog: a numeric id (0 is reserved for the
/// baseline and never listed), the kind of mutation, and the source span it
/// was injected at.
pub struct Mutation<'a> {
    /// The id the instrumented binary selects this mutation by.
    pub count: usize,
    /// The kind of mutation.
    pub description: &'a str,
    /// Source span of the original expression.
    pub span: &'a str,
}

/// Why a catalog line was rejected; each variant carries the offending line.
#[derive(Debug)]
pub enum ParseError {
    CountSeparatorMissing { line: String },
    SpanSeparatorMissing { line: String },
    InvalidCount { line: String },
}

impl<'a> Mutation<'a> {
    /// Parse one catalog line `<id> - <description> @ <span>`, splitting at
    /// the first occurrence of each separator.
    pub fn from(mutation: &'a str) -> (r: Result<Mutation<'a>, ParseError>)
        ensures
            match r {
                Ok(m) => {
                    &&& line_well_formed(mutation@)
                    &&& m.count as nat == count_value(spec_count_str(mutation@))
                    &&& m.description@ == spec_description(mutation@)
                    &&& m.span@ == spec_span(mutation@)
                },
                Err(e) => {
                    &&& !line_well_formed(mutation@)
                    &&& match e {
                        ParseError::CountSeparatorMissing { line } => {
                            &&& line@ == mutation@
                            &&& !has_count_sep(mutation@)
                        },
                        ParseError::SpanSeparatorMissing { line } => {
                            &&& line@ == mutation@
                            &&& has_count_sep(mutation@)
                            &&& !has_span_sep(mutation@)
                        },
                        ParseError::InvalidCount { line } => {
                            &&& line@ == mutation@
                            &&& has_count_sep(mutation@)
                            &&& has_span_sep(mutation@)
                            &&& (!is_count(spec_count_str(mutation@)) || count_value(
                                spec_count_str(mutation@),
                            ) > usize::MAX)
                        },
                    }
                },
            },
    {
        let dash = " - ";
        let at = " @ ";
        proof {
            reveal_strlit(" - ");
            reveal_strlit(" @ ");
            assert(dash@ =~= dash_sep());
            assert(at@ =~= at_sep());
        }
        let n = mutation.unicode_len();
        let i = match find_sub(mutation, dash) {
            Some(i) => i,
            None => {
                return Err(ParseError::CountSeparatorMissing { line: mutation.to_owned() });
            },
        };
        proof {
            lemma_find_first(mutation@, dash_sep());
        }
        let head = mutation.substring_char(0, i);
        let rest = mutation.substring_char(i + 3, n);
        proof {
            assert(head@ == spec_count_str(mutation@));
            assert(rest@ == spec_rest(mutation@));
        }
        let m = rest.unicode_len();
        let j = match find_sub(rest, at) {
            Some(j) => j,
            None => {
                return Err(ParseError::SpanSeparatorMissing { line: mutation.to_owned() });
            },
        };
        proof {
            lemma_find_first(rest@, at_sep());
        }
        let description = rest.substring_char(0, j);
        let span = rest.substring_char(j + 3, m);
        match parse_count(head) {
            Some(count) => Ok(Mutation { count, description, span }),
            None => Err(ParseError::InvalidCount { line: mutation.to_owned() }),
        }
    }
}

// ---------------------------------------------------------------------------
// The whole catalog: one mutation per line, blank lines skipped.
// ---------------------------------------------------------------------------

pub open spec fn newline() -> Seq<char> {
    seq!['\n']
}

/// The non-empty fields of `s` when it is cut at every occurrence of the
/// one-character separator `sep`, in order.
pub open spec fn nonempty_fields(s: Seq<char>, sep: Seq<char>) -> Seq<Seq<char>>
    decreases s.len(),
    via nonempty_fields_decreases
{
    match find_first(s, sep) {
        None => if s.len() > 0 {
            seq![s]
        } else {
            Seq::empty()
        },
        Some(i) => {
            let rest = nonempty_fields(s.subrange(i + sep.len() as int, s.len() as int), sep);
            if i > 0 {
                seq![s.subrange(0, i)] + rest
            } else {
                rest
            }
        },
    }
}

#[via_fn]
proof fn nonempty_fields_decreases(s: Seq<char>, sep: Seq<char>) {
    if sep.len() >= 1 {
        if find_first(s, sep) is Some {
            lemma_find_first(s, sep);
        }
    }
}

/// The non-empty lines of `s`, in order.
pub open spec fn nonempty_lines(s: Seq<char>) -> Seq<Seq<char>> {
    nonempty_fields(s, newline())
}

/// Split `text` at every occurrence of `sep` and drop empty fields.
pub fn split_nonempty<'a>(text: &'a str, sep: &str) -> (r: Vec<&'a str>)
    requires
        sep@.len() >= 1,
    ensures
        r@.len() == nonempty_fields(text@, sep@).len(),
        forall|k: int| 0 <= k < r@.len() ==> r@[k]@ == nonempty_fields(text@, sep@)[k],
    decreases text@.len(),
{
    let n = text.unicode_len();
    let m = sep.unicode_len();
    match find_sub(text, sep) {
        None => {
            let mut out: Vec<&'a str> = Vec::new();
            if n > 0 {
                out.push(text);
            }
            out
        },
        Some(i) => {
            proof {
                lemma_find_first(text@, sep@);
            }
            let rest = text.substring_char(i + m, n);
            let mut out = split_nonempty(rest, sep);
            if i > 0 {
                let head = text.substring_char(0, i);
                out.insert(0, head);
            }
            out
        },
    }
}

/// Split the catalog text at newlines and drop empty lines.
pub fn split_nonempty_lines<'a>(text: &'a str) -> (r: Vec<&'a str>)
    ensures
        r@.len() == nonempty_lines(text@).len(),
        forall|k: int| 0 <= k < r@.len() ==> r@[k]@ == nonempty_lines(text@)[k],
{
    let nl = "\n";
    proof {
        reveal_strlit("\n");
        assert(nl@ =~= newline());
    }
    split_nonempty(text, nl)
}

/// The parsed form of a well-formed catalog line.
pub open spec fn line_matches(line: Seq<char>, m: Mutation) -> bool {
    &&& m.count as nat == count_value(spec_count_str(line))
    &&& m.description@ == spec_description(line)
    &&& m.span@ == spec_span(line)
}

/// Parse a whole catalog: every non-empty line in order, stopping at the
/// first malformed line with the error that names it.
pub fn parse_catalog<'a>(text: &'a str) -> (r: Result<Vec<Mutation<'a>>, ParseError>)
    ensures
        match r {
            Ok(ms) => {
                &&& ms@.len() == nonempty_lines(text@).len()
                &&& forall|k: int|
                    0 <= k < ms@.len() ==> line_well_formed(#[trigger] nonempty_lines(text@)[k])
                        && line_matches(nonempty_lines(text@)[k], ms@[k])
            },
            Err(_) => exists|k: int|
                0 <= k < nonempty_lines(text@).len() && !line_well_formed(
                    nonempty_lines(text@)[k],
                ),
        },
{
    let lines = split_nonempty_lines(text);
    let mut out: Vec<Mutation<'a>> = Vec::new();
    let mut idx: usize = 0;
    while idx < lines.len()
        invariant
            idx <= lines@.len(),
            lines@.len() == nonempty_lines(text@).len(),
            forall|k: int| 0 <= k < lines@.len() ==> lines@[k]@ == nonempty_lines(text@)[k],
            out@.len() == idx,
            forall|k: int|
                0 <= k < idx ==> line_well_formed(#[trigger] nonempty_lines(text@)[k])
                    && line_matches(nonempty_lines(text@)[k], out@[k]),
        decreases lines@.len() - idx,
    {
        let line: &str = lines[idx];
        match Mutation::from(line) {
            Ok(m) => {
                let ghost pre = out@;
                out.push(m);
                proof {
                    assert(out@ == pre.push(m));
                    assert(line@ == nonempty_lines(text@)[idx as int]);
                    assert(out@[idx as int] == m);
                    assert forall|k: int|
                        0 <= k < idx + 1 implies line_well_formed(
                        #[trigger] nonempty_lines(text@)[k],
                    ) && line_matches(nonempty_lines(text@)[k], out@[k]) by {
                        if k < idx {
                            assert(out@[k] == pre[k]);
                            assert(line_well_formed(nonempty_lines(text@)[k]) && line_matches(
                                nonempty_lines(text@)[k],
                                pre[k],
                            ));
                        } else {
                            assert(out@[k] == m);
                            assert(line_well_formed(line@) && line_matches(line@, m));
                        }
                    }
                }
            },
            Err(e) => {
                proof {
                    assert(!line_well_formed(nonempty_lines(text@)[idx as int]));
                }
                return Err(e);
            },
        }
        idx += 1;
    }
    Ok(out)
}

} // verus!
