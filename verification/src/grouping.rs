//! Grouping of codes for display: a separator after every fourth symbol.

use vstd::prelude::*;

verus! {

/// The character that stands between the groups of a code.
pub const SEPARATOR: char = '-';

/// Length of the grouped form of a code of `n` symbols: one separator between
/// every two neighbouring groups of four.
pub open spec fn grouped_len(n: nat) -> nat {
    if n == 0 {
        0
    } else {
        (n + (n - 1) / 4) as nat
    }
}

/// The character at place `j` of the grouped form of `raw`: every fifth place
/// holds a separator, the others hold the symbols of `raw` in order.
pub open spec fn grouped_at(raw: Seq<char>, j: int) -> char {
    if j % 5 == 4 {
        SEPARATOR
    } else {
        raw[j - j / 5]
    }
}

/// The grouped form of `raw`: its symbols in runs of four, a separator between
/// every two runs; the last run may be shorter. Ten symbols come out as 4-4-2.
pub open spec fn group_spec(raw: Seq<char>) -> Seq<char> {
    Seq::new(grouped_len(raw.len()), |j: int| grouped_at(raw, j))
}

/// Groups a code for display.
pub fn group_code(raw: &str) -> (out: String)
    ensures
        out@ == group_spec(raw@),
{
    let mut out = String::new();
    let mut run: usize = 0;
    for ch in it: raw.chars()
        invariant
            it.seq() == raw@,
            run <= 4,
            run == 0 <==> it.index() == 0,
            it.index() > 0 ==> run == (it.index() - 1) % 4 + 1,
            out@.len() == grouped_len(it.index() as nat),
            forall|j: int| 0 <= j < out@.len() ==> out@[j] == grouped_at(raw@, j),
    {
        if run == 4 {
            out.push(SEPARATOR);
            run = 0;
        }
        out.push(ch);
        run += 1;
    }
    assert(out@ =~= group_spec(raw@));
    out
}

/// The characters that stripping keeps: all but the separator.
pub open spec fn not_separator() -> spec_fn(char) -> bool {
    |ch: char| ch != SEPARATOR
}

/// `code` without its separators: the other characters, in order.
pub open spec fn strip_spec(code: Seq<char>) -> Seq<char> {
    code.filter(not_separator())
}

/// Removes every separator from a code, wherever it stands.
pub fn strip_separators(code: &str) -> (out: String)
    ensures
        out@ == strip_spec(code@),
        forall|i: int| 0 <= i < out@.len() ==> out@[i] != SEPARATOR,
{
    let mut out = String::new();
    for ch in it: code.chars()
        invariant
            it.seq() == code@,
            out@ == strip_spec(code@.take(it.index())),
    {
        proof {
            let i = it.index();
            code@.lemma_take_succ_push(i);
            code@.take(i).lemma_filter_push(ch, not_separator());
        }
        if ch != SEPARATOR {
            out.push(ch);
        }
    }
    proof {
        code@.lemma_take_len();
        assert forall|i: int| 0 <= i < out@.len() implies out@[i] != SEPARATOR by {
            lemma_strip_has_no_separator(code@, i);
        }
    }
    out
}

/// Grouping one symbol more: the symbol goes to the end, behind a separator
/// where it opens a new run of four.
pub proof fn lemma_group_push(raw: Seq<char>, ch: char)
    ensures
        group_spec(raw.push(ch)) == if raw.len() > 0 && raw.len() % 4 == 0 {
            group_spec(raw).push(SEPARATOR).push(ch)
        } else {
            group_spec(raw).push(ch)
        },
{
    let longer = raw.push(ch);
    let expected = if raw.len() > 0 && raw.len() % 4 == 0 {
        group_spec(raw).push(SEPARATOR).push(ch)
    } else {
        group_spec(raw).push(ch)
    };
    assert forall|j: int| 0 <= j < expected.len() implies group_spec(longer)[j] == expected[j] by {
        if j < grouped_len(raw.len()) {
            assert(grouped_at(longer, j) == grouped_at(raw, j));
        }
    }
    assert(group_spec(longer) =~= expected);
}

/// Runs of four: up to four symbols stay as they are; of more, the first four
/// are followed by a separator and by the grouped form of the rest.
pub proof fn lemma_group_runs(raw: Seq<char>)
    ensures
        raw.len() <= 4 ==> group_spec(raw) == raw,
        raw.len() > 4 ==> group_spec(raw) == raw.take(4).push(SEPARATOR) + group_spec(raw.skip(4)),
{
    if raw.len() <= 4 {
        assert(group_spec(raw) =~= raw);
    } else {
        let rest = raw.skip(4);
        let expected = raw.take(4).push(SEPARATOR) + group_spec(rest);
        assert forall|j: int| 0 <= j < expected.len() implies group_spec(raw)[j] == expected[j] by {
            if j >= 5 {
                assert(expected[j] == grouped_at(rest, j - 5));
            }
        }
        assert(group_spec(raw) =~= expected);
    }
}

/// The layouts of short codes: ten symbols come out as 4-4-2, eight as 4-4,
/// six as 4-2, and up to four symbols stay unseparated.
pub proof fn lemma_group_layouts(raw: Seq<char>)
    ensures
        raw.len() == 10 ==> group_spec(raw) == raw.subrange(0, 4).push(SEPARATOR) + raw.subrange(
            4,
            8,
        ).push(SEPARATOR) + raw.subrange(8, 10),
        raw.len() == 8 ==> group_spec(raw) == raw.subrange(0, 4).push(SEPARATOR) + raw.subrange(
            4,
            8,
        ),
        raw.len() == 6 ==> group_spec(raw) == raw.subrange(0, 4).push(SEPARATOR) + raw.subrange(
            4,
            6,
        ),
        raw.len() <= 4 ==> group_spec(raw) == raw,
{
    if raw.len() == 10 {
        assert(group_spec(raw) =~= raw.subrange(0, 4).push(SEPARATOR) + raw.subrange(4, 8).push(
            SEPARATOR,
        ) + raw.subrange(8, 10));
    }
    if raw.len() == 8 {
        assert(group_spec(raw) =~= raw.subrange(0, 4).push(SEPARATOR) + raw.subrange(4, 8));
    }
    if raw.len() == 6 {
        assert(group_spec(raw) =~= raw.subrange(0, 4).push(SEPARATOR) + raw.subrange(4, 6));
    }
    if raw.len() <= 4 {
        assert(group_spec(raw) =~= raw);
    }
}

/// What is left of a code without its separators holds none.
pub proof fn lemma_strip_has_no_separator(code: Seq<char>, i: int)
    requires
        0 <= i < strip_spec(code).len(),
    ensures
        strip_spec(code)[i] != SEPARATOR,
{
    code.lemma_filter_pred(not_separator(), i);
}

/// A code that holds no separator stays as it is.
pub proof fn lemma_strip_clean(code: Seq<char>)
    requires
        forall|i: int| 0 <= i < code.len() ==> code[i] != SEPARATOR,
    ensures
        strip_spec(code) == code,
    decreases code.len(),
{
    if code.len() == 0 {
        assert(strip_spec(code).len() <= code.len()) by {
            code.lemma_filter_len(not_separator());
        }
        assert(strip_spec(code) =~= code);
    } else {
        let front = code.drop_last();
        lemma_strip_clean(front);
        front.lemma_filter_push(code.last(), not_separator());
        assert(front.push(code.last()) =~= code);
    }
}

/// Grouping adds separators and nothing else: without its separators, the
/// grouped form of `raw` holds what `raw` holds without its own.
pub proof fn lemma_strip_group(raw: Seq<char>)
    ensures
        strip_spec(group_spec(raw)) == strip_spec(raw),
    decreases raw.len(),
{
    if raw.len() == 0 {
        assert(group_spec(raw) =~= raw);
    } else {
        let front = raw.drop_last();
        let last = raw.last();
        assert(front.push(last) =~= raw);
        lemma_strip_group(front);
        lemma_group_push(front, last);
        front.lemma_filter_push(last, not_separator());
        group_spec(front).lemma_filter_push(SEPARATOR, not_separator());
        group_spec(front).push(SEPARATOR).lemma_filter_push(last, not_separator());
        group_spec(front).lemma_filter_push(last, not_separator());
    }
}

} // verus!
