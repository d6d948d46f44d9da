//! The words of a file of whitespace-separated numbers: on each line, everything after a
//! `#` is a comment, and the rest splits at ASCII whitespace.
use vstd::prelude::*;

verus! {

/// ASCII whitespace: space, tab, newline, form feed and carriage return.
pub open spec fn ascii_white(c: char) -> bool {
    c == ' ' || c == '\t' || c == '\n' || c == '\x0C' || c == '\r'
}

/// The part of `s` before its first `#`.
pub open spec fn before_comment(s: Seq<char>) -> Seq<char>
    decreases s.len(),
{
    if s.len() == 0 || s[0] == '#' {
        Seq::empty()
    } else {
        seq![s[0]] + before_comment(s.drop_first())
    }
}

/// The length of the run of non-whitespace characters that starts `s`.
pub open spec fn run_len(s: Seq<char>) -> nat
    decreases s.len(),
{
    if s.len() == 0 || ascii_white(s[0]) {
        0
    } else {
        1 + run_len(s.drop_first())
    }
}

/// The maximal runs of non-whitespace characters of `s`, in order.
pub open spec fn words(s: Seq<char>) -> Seq<Seq<char>>
    decreases s.len(),
{
    if s.len() == 0 {
        Seq::empty()
    } else if ascii_white(s[0]) {
        words(s.drop_first())
    } else {
        let n = run_len(s);
        if 0 < n <= s.len() {
            seq![s.take(n as int)] + words(s.skip(n as int))
        } else {
            Seq::empty()
        }
    }
}

/// The words of a line of a number file.
pub open spec fn line_words(line: Seq<char>) -> Seq<Seq<char>> {
    words(before_comment(line))
}

proof fn lemma_run_len(s: Seq<char>, i: int)
    requires
        0 <= i <= s.len(),
        forall|j: int| 0 <= j < i ==> !ascii_white(#[trigger] s[j]),
        i == s.len() || ascii_white(s[i]),
    ensures
        run_len(s) == i,
    decreases i,
{
    if i > 0 {
        let t = s.drop_first();
        assert forall|j: int| 0 <= j < i - 1 implies !ascii_white(#[trigger] t[j]) by {
            assert(t[j] == s[j + 1]);
        }
        if i < s.len() {
            assert(t[i - 1] == s[i]);
        }
        lemma_run_len(t, i - 1);
    }
}

proof fn lemma_before_comment(s: Seq<char>, i: int)
    requires
        0 <= i <= s.len(),
        forall|j: int| 0 <= j < i ==> #[trigger] s[j] != '#',
        i == s.len() || s[i] == '#',
    ensures
        before_comment(s) == s.take(i),
    decreases i,
{
    if i > 0 {
        let t = s.drop_first();
        assert forall|j: int| 0 <= j < i - 1 implies #[trigger] t[j] != '#' by {
            assert(t[j] == s[j + 1]);
        }
        if i < s.len() {
            assert(t[i - 1] == s[i]);
        }
        lemma_before_comment(t, i - 1);
        assert(seq![s[0]] + t.take(i - 1) =~= s.take(i));
    } else {
        assert(s.take(0) =~= Seq::<char>::empty());
    }
}

/// Whether `c` is ASCII whitespace.
fn is_ascii_white(c: char) -> (r: bool)
    ensures
        r == ascii_white(c),
{
    c == ' ' || c == '\t' || c == '\n' || c == '\x0C' || c == '\r'
}

/// The words of `line`: the text before its first `#`, split at ASCII whitespace.
pub fn float_words(line: &str) -> (r: Vec<String>)
    ensures
        r@.map_values(|w: String| w@) == line_words(line@),
{
    let n = line.unicode_len();
    let mut end: usize = 0;
    while end < n && line.get_char(end) != '#'
        invariant
            n == line@.len(),
            end <= n,
            forall|j: int| 0 <= j < end ==> #[trigger] line@[j] != '#',
        decreases n - end,
    {
        end = end + 1;
    }
    proof {
        lemma_before_comment(line@, end as int);
    }
    let text = line.substring_char(0, end);
    let ghost t = text@;
    let mut out: Vec<String> = Vec::new();
    let mut i: usize = 0;
    proof {
        assert(t.skip(0) =~= t);
        assert(out@.map_values(|w: String| w@) + words(t.skip(0)) =~= words(t));
    }
    while i < end
        invariant
            t == text@,
            t == before_comment(line@),
            end == t.len(),
            i <= end,
            out@.map_values(|w: String| w@) + words(t.skip(i as int)) == words(t),
        decreases end - i,
    {
        let ghost rest = t.skip(i as int);
        if is_ascii_white(text.get_char(i)) {
            proof {
                assert(rest.drop_first() =~= t.skip(i + 1));
            }
            i = i + 1;
        } else {
            let mut j = i + 1;
            while j < end && !is_ascii_white(text.get_char(j))
                invariant
                    t == text@,
                    end == t.len(),
                    i < j <= end,
                    forall|k: int| i <= k < j ==> !ascii_white(#[trigger] t[k]),
                decreases end - j,
            {
                j = j + 1;
            }
            proof {
                assert forall|k: int| 0 <= k < j - i implies !ascii_white(#[trigger] rest[k]) by {
                    assert(rest[k] == t[i + k]);
                }
                if j < end {
                    assert(rest[j - i] == t[j as int]);
                }
                lemma_run_len(rest, j - i);
            }
            let word = text.substring_char(i, j);
            let ghost before = out@;
            out.push(word.to_owned());
            proof {
                assert(word@ =~= rest.take(j - i));
                assert(rest.skip(j - i) =~= t.skip(j as int));
                assert(out@.map_values(|w: String| w@) =~= before.map_values(|w: String| w@).push(
                    word@,
                ));
                assert(out@.map_values(|w: String| w@) + words(t.skip(j as int)) =~= before.map_values(
                    |w: String| w@,
                ) + (seq![rest.take(j - i)] + words(rest.skip(j - i))));
            }
            i = j;
        }
    }
    proof {
        assert(t.skip(end as int) =~= Seq::<char>::empty());
        assert(out@.map_values(|w: String| w@) + Seq::<Seq<char>>::empty() =~= out@.map_values(
            |w: String| w@,
        ));
        assert(line@.take(end as int) =~= t);
    }
    out
}

} // verus!
