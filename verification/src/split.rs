//! Splitting text: whitespace tokens, lines, and comma-separated fields.

use vstd::prelude::*;

verus! {

/// The views of a sequence of strings.
pub open spec fn str_views(v: Seq<String>) -> Seq<Seq<char>> {
    v.map_values(|x: String| x@)
}

pub open spec fn is_space_char(c: char) -> bool {
    c == ' ' || c == '\t' || c == '\n' || c == '\r' || c == '\u{b}' || c == '\u{c}'
}

/// The length of the leading run of non-space characters.
pub open spec fn token_run(s: Seq<char>) -> nat
    decreases s.len(),
{
    if s.len() == 0 || is_space_char(s[0]) {
        0
    } else {
        (1 + token_run(s.drop_first())) as nat
    }
}

pub proof fn lemma_token_run_le(s: Seq<char>)
    ensures
        token_run(s) <= s.len(),
    decreases s.len(),
{
    if s.len() > 0 && !is_space_char(s[0]) {
        lemma_token_run_le(s.drop_first());
    }
}

/// The run of non-space characters is exactly k when the first k characters
/// are non-space and the text ends or has a space right after them.
pub proof fn lemma_token_run_is(s: Seq<char>, k: nat)
    requires
        k <= s.len(),
        forall|j: int| 0 <= j < k ==> !is_space_char(#[trigger] s[j]),
        k == s.len() || is_space_char(s[k as int]),
    ensures
        token_run(s) == k,
    decreases k,
{
    if k > 0 {
        let t = s.drop_first();
        assert forall|j: int| 0 <= j < k - 1 implies !is_space_char(#[trigger] t[j]) by {
            assert(t[j] == s[j + 1]);
        }
        assert(k - 1 == t.len() || is_space_char(t[k - 1]));
        lemma_token_run_is(t, (k - 1) as nat);
    }
}

/// The whitespace-separated tokens of a line, in order; runs of whitespace
/// separate tokens and produce no empty tokens.
pub open spec fn tokens(s: Seq<char>) -> Seq<Seq<char>>
    decreases s.len(),
    via tokens_decreases
{
    if s.len() == 0 {
        Seq::empty()
    } else if is_space_char(s[0]) {
        tokens(s.drop_first())
    } else {
        seq![s.take(token_run(s) as int)] + tokens(s.skip(token_run(s) as int))
    }
}

#[via_fn]
proof fn tokens_decreases(s: Seq<char>) {
    if s.len() > 0 && !is_space_char(s[0]) {
        lemma_token_run_le(s);
    }
}

/// The length of the leading run of characters other than sep.
pub open spec fn sep_run(s: Seq<char>, sep: char) -> nat
    decreases s.len(),
{
    if s.len() == 0 || s[0] == sep {
        0
    } else {
        (1 + sep_run(s.drop_first(), sep)) as nat
    }
}

pub proof fn lemma_sep_run_le(s: Seq<char>, sep: char)
    ensures
        sep_run(s, sep) <= s.len(),
    decreases s.len(),
{
    if s.len() > 0 && s[0] != sep {
        lemma_sep_run_le(s.drop_first(), sep);
    }
}

pub proof fn lemma_sep_run_is(s: Seq<char>, sep: char, k: nat)
    requires
        k <= s.len(),
        forall|j: int| 0 <= j < k ==> #[trigger] s[j] != sep,
        k == s.len() || s[k as int] == sep,
    ensures
        sep_run(s, sep) == k,
    decreases k,
{
    if k > 0 {
        let t = s.drop_first();
        assert forall|j: int| 0 <= j < k - 1 implies #[trigger] t[j] != sep by {
            assert(t[j] == s[j + 1]);
        }
        assert(k - 1 == t.len() || t[k - 1] == sep);
        lemma_sep_run_is(t, sep, (k - 1) as nat);
    }
}

/// A line with one trailing carriage return dropped.
pub open spec fn strip_cr(l: Seq<char>) -> Seq<char> {
    if l.len() > 0 && l.last() == '\r' {
        l.drop_last()
    } else {
        l
    }
}

/// The lines of a text: pieces between newline characters, each with one
/// trailing carriage return dropped; a trailing newline opens no extra empty
/// line, and the empty text has no lines.
pub open spec fn line_split(s: Seq<char>) -> Seq<Seq<char>>
    decreases s.len(),
    via line_split_decreases
{
    if s.len() == 0 {
        Seq::empty()
    } else {
        let k = sep_run(s, '\n') as int;
        if k == s.len() {
            seq![strip_cr(s.take(k))]
        } else {
            seq![strip_cr(s.take(k))] + line_split(s.skip(k + 1))
        }
    }
}

#[via_fn]
proof fn line_split_decreases(s: Seq<char>) {
    if s.len() > 0 {
        lemma_sep_run_le(s, '\n');
    }
}

/// The comma-separated fields of a line; every comma separates, empty fields
/// stay, and the empty line has one empty field.
pub open spec fn comma_split(s: Seq<char>) -> Seq<Seq<char>>
    decreases s.len(),
    via comma_split_decreases
{
    let k = sep_run(s, ',') as int;
    if k == s.len() {
        seq![s.take(k)]
    } else {
        seq![s.take(k)] + comma_split(s.skip(k + 1))
    }
}

#[via_fn]
proof fn comma_split_decreases(s: Seq<char>) {
    lemma_sep_run_le(s, ',');
}

fn is_space_exec(c: char) -> (b: bool)
    ensures
        b == is_space_char(c),
{
    c == ' ' || c == '\t' || c == '\n' || c == '\r' || c == '\u{b}' || c == '\u{c}'
}

/// The first position at or after start that holds sep, or the text's length.
fn scan_sep(s: &str, start: usize, sep: char) -> (r: usize)
    requires
        start <= s@.len(),
    ensures
        start <= r <= s@.len(),
        forall|j: int| start <= j < r ==> #[trigger] s@[j] != sep,
        r < s@.len() ==> s@[r as int] == sep,
{
    let n = s.unicode_len();
    let mut i = start;
    while i < n
        invariant
            start <= i <= n,
            n == s@.len(),
            forall|j: int| start <= j < i ==> #[trigger] s@[j] != sep,
        decreases n - i,
    {
        if s.get_char(i) == sep {
            return i;
        }
        i += 1;
    }
    i
}

/// The first position at or after start that holds whitespace, or the text's
/// length.
fn scan_space(s: &str, start: usize) -> (r: usize)
    requires
        start <= s@.len(),
    ensures
        start <= r <= s@.len(),
        forall|j: int| start <= j < r ==> !is_space_char(#[trigger] s@[j]),
        r < s@.len() ==> is_space_char(s@[r as int]),
{
    let n = s.unicode_len();
    let mut i = start;
    while i < n
        invariant
            start <= i <= n,
            n == s@.len(),
            forall|j: int| start <= j < i ==> !is_space_char(#[trigger] s@[j]),
        decreases n - i,
    {
        if is_space_exec(s.get_char(i)) {
            return i;
        }
        i += 1;
    }
    i
}

/// Splits a line into its whitespace-separated tokens.
pub fn split_tokens(s: &str) -> (r: Vec<String>)
    ensures
        str_views(r@) == tokens(s@),
{
    let n = s.unicode_len();
    let mut out: Vec<String> = Vec::new();
    let mut i: usize = 0;
    proof {
        assert(s@.skip(0) =~= s@);
        assert(str_views(out@) =~= Seq::<Seq<char>>::empty());
    }
    while i < n
        invariant
            0 <= i <= n,
            n == s@.len(),
            tokens(s@) == str_views(out@) + tokens(s@.skip(i as int)),
        decreases n - i,
    {
        let c = s.get_char(i);
        if is_space_exec(c) {
            proof {
                let rest = s@.skip(i as int);
                assert(rest[0] == s@[i as int]);
                assert(tokens(rest) == tokens(rest.drop_first()));
                assert(rest.drop_first() =~= s@.skip(i + 1));
            }
            i += 1;
        } else {
            let j = scan_space(s, i);
            assert(i < j);
            let tok = s.substring_char(i, j);
            out.push(String::from_str(tok));
            proof {
                let rest = s@.skip(i as int);
                assert forall|jj: int| 0 <= jj < j - i implies !is_space_char(
                    #[trigger] rest[jj],
                ) by {
                    assert(rest[jj] == s@[jj + i]);
                }
                assert(j - i == rest.len() || is_space_char(rest[j - i]));
                lemma_token_run_is(rest, (j - i) as nat);
                assert(tokens(rest) == seq![rest.take(j - i)] + tokens(rest.skip(j - i)));
                assert(rest.take(j - i) =~= s@.subrange(i as int, j as int));
                assert(rest.skip(j - i) =~= s@.skip(j as int));
                assert(str_views(out@) =~= str_views(out@.drop_last()) + seq![tok@]);
                assert(str_views(out@.drop_last()) + seq![tok@] + tokens(s@.skip(j as int)) =~= str_views(
                    out@.drop_last(),
                ) + (seq![tok@] + tokens(s@.skip(j as int))));
            }
            i = j;
        }
    }
    proof {
        assert(s@.skip(n as int) =~= Seq::<char>::empty());
        assert(tokens(s@) =~= str_views(out@));
    }
    out
}

/// Splits a text into its lines.
pub fn split_lines(s: &str) -> (r: Vec<String>)
    ensures
        str_views(r@) == line_split(s@),
{
    let n = s.unicode_len();
    let mut out: Vec<String> = Vec::new();
    let mut i: usize = 0;
    proof {
        assert(s@.skip(0) =~= s@);
        assert(str_views(out@) =~= Seq::<Seq<char>>::empty());
    }
    while i < n
        invariant
            0 <= i <= n,
            n == s@.len(),
            line_split(s@) == str_views(out@) + line_split(s@.skip(i as int)),
        decreases n - i,
    {
        let j = scan_sep(s, i, '\n');
        let line_end = if j > i && s.get_char(j - 1) == '\r' {
            j - 1
        } else {
            j
        };
        let piece = s.substring_char(i, line_end);
        out.push(String::from_str(piece));
        proof {
            let rest = s@.skip(i as int);
            assert forall|jj: int| 0 <= jj < j - i implies #[trigger] rest[jj] != '\n' by {
                assert(rest[jj] == s@[jj + i]);
            }
            assert(j - i == rest.len() || rest[j - i] == '\n');
            lemma_sep_run_is(rest, '\n', (j - i) as nat);
            assert(rest.take(j - i) =~= s@.subrange(i as int, j as int));
            if j > i && s@[j - 1] == '\r' {
                assert(rest.take(j - i).last() == '\r');
                assert(strip_cr(rest.take(j - i)) =~= s@.subrange(i as int, line_end as int));
            } else {
                assert(strip_cr(rest.take(j - i)) =~= s@.subrange(i as int, line_end as int));
            }
            assert(piece@ == strip_cr(rest.take(j - i)));
            assert(str_views(out@) =~= str_views(out@.drop_last()) + seq![piece@]);
            if j < n {
                assert(line_split(rest) == seq![strip_cr(rest.take(j - i))] + line_split(
                    rest.skip(j - i + 1),
                ));
                assert(rest.skip(j - i + 1) =~= s@.skip(j + 1));
                assert(str_views(out@.drop_last()) + seq![piece@] + line_split(s@.skip(j + 1))
                    =~= str_views(out@.drop_last()) + (seq![piece@] + line_split(s@.skip(j + 1))));
            } else {
                assert(line_split(rest) == seq![strip_cr(rest.take(j - i))]);
                assert(s@.skip(n as int) =~= Seq::<char>::empty());
                assert(str_views(out@.drop_last()) + seq![piece@] + line_split(s@.skip(n as int))
                    =~= str_views(out@.drop_last()) + seq![piece@]);
            }
        }
        if j < n {
            i = j + 1;
        } else {
            i = n;
        }
    }
    proof {
        assert(s@.skip(n as int) =~= Seq::<char>::empty());
        assert(line_split(s@) =~= str_views(out@));
    }
    out
}

/// Splits a line into its comma-separated fields.
pub fn split_commas(s: &str) -> (r: Vec<String>)
    ensures
        str_views(r@) == comma_split(s@),
{
    let n = s.unicode_len();
    let mut out: Vec<String> = Vec::new();
    let mut i: usize = 0;
    proof {
        assert(s@.skip(0) =~= s@);
        assert(str_views(out@) =~= Seq::<Seq<char>>::empty());
    }
    loop
        invariant
            0 <= i <= n,
            n == s@.len(),
            comma_split(s@) == str_views(out@) + comma_split(s@.skip(i as int)),
        decreases n - i,
    {
        let j = scan_sep(s, i, ',');
        let piece = s.substring_char(i, j);
        out.push(String::from_str(piece));
        proof {
            let rest = s@.skip(i as int);
            assert forall|jj: int| 0 <= jj < j - i implies #[trigger] rest[jj] != ',' by {
                assert(rest[jj] == s@[jj + i]);
            }
            assert(j - i == rest.len() || rest[j - i] == ',');
            lemma_sep_run_is(rest, ',', (j - i) as nat);
            assert(rest.take(j - i) =~= s@.subrange(i as int, j as int));
            assert(piece@ == rest.take(j - i));
            assert(str_views(out@) =~= str_views(out@.drop_last()) + seq![piece@]);
            if j < n {
                assert(comma_split(rest) == seq![rest.take(j - i)] + comma_split(
                    rest.skip(j - i + 1),
                ));
                assert(rest.skip(j - i + 1) =~= s@.skip(j + 1));
                assert(str_views(out@.drop_last()) + seq![piece@] + comma_split(s@.skip(j + 1))
                    =~= str_views(out@.drop_last()) + (seq![piece@] + comma_split(s@.skip(j + 1))));
            } else {
                assert(comma_split(rest) == seq![rest.take(j - i)]);
                assert(comma_split(s@) =~= str_views(out@));
            }
        }
        if j < n {
            i = j + 1;
        } else {
            return out;
        }
    }
}

} // verus!
