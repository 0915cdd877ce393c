//! A model of text as characters, lines and whitespace-delimited tokens,
//! with the executable scanners that compute them.
use vstd::prelude::*;

verus! {

/// The characters with the Unicode `White_Space` property, the set that
/// `char::is_whitespace` documents.
pub open spec fn is_space(c: char) -> bool {
    let u = c as u32;
    (0x09 <= u && u <= 0x0D) || u == 0x20 || u == 0x85 || u == 0xA0 || u == 0x1680
        || (0x2000 <= u && u <= 0x200A) || u == 0x2028 || u == 0x2029 || u == 0x202F
        || u == 0x205F || u == 0x3000
}

/// Executable form of `is_space`.
pub fn is_space_char(c: char) -> (r: bool)
    ensures
        r == is_space(c),
{
    let u = c as u32;
    (0x09 <= u && u <= 0x0D) || u == 0x20 || u == 0x85 || u == 0xA0 || u == 0x1680 || (0x2000
        <= u && u <= 0x200A) || u == 0x2028 || u == 0x2029 || u == 0x202F || u == 0x205F || u
        == 0x3000
}

/// The characters of a string, in order.
pub fn chars_of(s: &str) -> (r: Vec<char>)
    ensures
        r@ == s@,
{
    let mut out: Vec<char> = Vec::new();
    for c in it: s.chars()
        invariant
            it.seq() == s@,
            out@ == it.seq().take(it.index() as int),
    {
        out.push(c);
    }
    proof {
        assert(out@ =~= s@);
    }
    out
}

/// Length of the longest prefix of `s` with no character satisfying `stop`.
pub open spec fn run_len(s: Seq<char>, stop: spec_fn(char) -> bool) -> nat
    decreases s.len(),
{
    if s.len() == 0 || stop(s[0]) {
        0
    } else {
        1 + run_len(s.drop_first(), stop)
    }
}

/// Runs of non-whitespace end at whitespace.
pub open spec fn space_stop() -> spec_fn(char) -> bool {
    |c: char| is_space(c)
}

/// Lines end at `'\n'`.
pub open spec fn newline_stop() -> spec_fn(char) -> bool {
    |c: char| c == '\n'
}

/// The tokens of `s`: its maximal runs of non-whitespace characters, in order.
pub open spec fn tokens(s: Seq<char>) -> Seq<Seq<char>>
    decreases s.len(),
    via tokens_decreases
{
    if s.len() == 0 {
        seq![]
    } else if is_space(s[0]) {
        tokens(s.drop_first())
    } else {
        let n = run_len(s, space_stop()) as int;
        seq![s.take(n)] + tokens(s.skip(n))
    }
}

#[via_fn]
proof fn tokens_decreases(s: Seq<char>) {
    if s.len() > 0 && !is_space(s[0]) {
        lemma_run_len_bound(s, space_stop());
    }
}

/// The lines of `s`: the pieces between `'\n'` characters, where a final
/// `'\n'` ends the last line rather than starting an empty one.
pub open spec fn lines(s: Seq<char>) -> Seq<Seq<char>>
    decreases s.len(),
{
    if s.len() == 0 {
        seq![]
    } else {
        let n = run_len(s, newline_stop()) as int;
        if n < s.len() {
            seq![s.take(n)] + lines(s.skip(n + 1))
        } else {
            seq![s]
        }
    }
}

pub proof fn lemma_run_len_bound(s: Seq<char>, stop: spec_fn(char) -> bool)
    ensures
        run_len(s, stop) <= s.len(),
        s.len() > 0 && !stop(s[0]) ==> run_len(s, stop) >= 1,
        run_len(s, stop) < s.len() ==> stop(s[run_len(s, stop) as int]),
        forall|k: int| 0 <= k < run_len(s, stop) ==> !stop(#[trigger] s[k]),
    decreases s.len(),
{
    if s.len() > 0 && !stop(s[0]) {
        lemma_run_len_bound(s.drop_first(), stop);
        assert forall|k: int| 0 <= k < run_len(s, stop) implies !stop(#[trigger] s[k]) by {
            if k > 0 {
                assert(s[k] == s.drop_first()[k - 1]);
            }
        }
    }
}

/// A run that ends inside `a` ends at the same place in `a + b`.
pub proof fn lemma_run_len_append(a: Seq<char>, b: Seq<char>, stop: spec_fn(char) -> bool)
    requires
        b.len() > 0,
        stop(b[0]),
    ensures
        run_len(a + b, stop) == run_len(a, stop),
    decreases a.len(),
{
    if a.len() > 0 {
        assert((a + b)[0] == a[0]);
        if !stop(a[0]) {
            lemma_run_len_append(a.drop_first(), b, stop);
            assert((a + b).drop_first() =~= a.drop_first() + b);
        }
    } else {
        assert(a + b =~= b);
    }
}

/// A whitespace character splits the tokens of a text in two.
pub proof fn lemma_tokens_split(a: Seq<char>, sp: char, b: Seq<char>)
    requires
        is_space(sp),
    ensures
        tokens(a + seq![sp] + b) == tokens(a) + tokens(b),
    decreases a.len(),
{
    let s = a + seq![sp] + b;
    if a.len() == 0 {
        assert(s.drop_first() =~= b);
        assert(tokens(a) + tokens(b) =~= tokens(b));
    } else if is_space(a[0]) {
        assert(s[0] == a[0]);
        lemma_tokens_split(a.drop_first(), sp, b);
        assert(s.drop_first() =~= a.drop_first() + seq![sp] + b);
    } else {
        assert(s[0] == a[0]);
        assert(s =~= a + (seq![sp] + b));
        lemma_run_len_append(a, seq![sp] + b, space_stop());
        lemma_run_len_bound(a, space_stop());
        let n = run_len(a, space_stop()) as int;
        assert(s.take(n) =~= a.take(n));
        assert(s.skip(n) =~= a.skip(n) + seq![sp] + b);
        lemma_tokens_split(a.skip(n), sp, b);
        assert(tokens(s) == seq![a.take(n)] + tokens(s.skip(n)));
        assert(tokens(a) == seq![a.take(n)] + tokens(a.skip(n)));
        assert(seq![a.take(n)] + (tokens(a.skip(n)) + tokens(b)) =~= tokens(a) + tokens(b));
    }
}

/// A run found by scanning from `i` to `j` has the length `run_len` gives.
pub proof fn lemma_run_len_at(s: Seq<char>, stop: spec_fn(char) -> bool, i: int, j: int)
    requires
        0 <= i <= j <= s.len(),
        forall|k: int| i <= k < j ==> !stop(#[trigger] s[k]),
        j == s.len() || stop(s[j]),
    ensures
        run_len(s.skip(i), stop) == j - i,
    decreases j - i,
{
    if i < j {
        lemma_run_len_at(s, stop, i + 1, j);
        assert(s.skip(i).drop_first() =~= s.skip(i + 1));
    }
}

/// Splits `s` into its tokens.
pub fn split_tokens(s: &Vec<char>) -> (r: Vec<Vec<char>>)
    ensures
        r@.map_values(|t: Vec<char>| t@) == tokens(s@),
{
    let mut out: Vec<Vec<char>> = Vec::new();
    let mut i: usize = 0;
    assert(s@.skip(0) =~= s@);
    assert(out@.map_values(|t: Vec<char>| t@) =~= Seq::<Seq<char>>::empty());
    while i < s.len()
        invariant
            i <= s.len(),
            tokens(s@) == out@.map_values(|t: Vec<char>| t@) + tokens(s@.skip(i as int)),
        decreases s.len() - i,
    {
        let rest = Ghost(s@.skip(i as int));
        if is_space_char(s[i]) {
            assert(rest@.drop_first() =~= s@.skip(i + 1));
            i = i + 1;
        } else {
            let mut tok: Vec<char> = Vec::new();
            let mut j: usize = i;
            while j < s.len() && !is_space_char(s[j])
                invariant
                    i <= j <= s.len(),
                    tok@ == s@.subrange(i as int, j as int),
                    forall|k: int| i <= k < j ==> !is_space(#[trigger] s@[k]),
                decreases s.len() - j,
            {
                tok.push(s[j]);
                j = j + 1;
                assert(tok@ =~= s@.subrange(i as int, j as int));
            }
            proof {
                lemma_run_len_at(s@, space_stop(), i as int, j as int);
                assert(rest@.take(j - i) =~= tok@);
                assert(rest@.skip(j - i) =~= s@.skip(j as int));
            }
            let ghost before = out@.map_values(|t: Vec<char>| t@);
            out.push(tok);
            assert(out@.map_values(|t: Vec<char>| t@) =~= before.push(
                s@.subrange(i as int, j as int),
            ));
            assert(tokens(s@) == out@.map_values(|t: Vec<char>| t@) + tokens(s@.skip(j as int)))
                by {
                assert(before + (seq![s@.subrange(i as int, j as int)] + tokens(
                    s@.skip(j as int),
                )) =~= out@.map_values(|t: Vec<char>| t@) + tokens(s@.skip(j as int)));
            }
            i = j;
        }
    }
    assert(s@.skip(i as int) =~= Seq::<char>::empty());
    assert(out@.map_values(|t: Vec<char>| t@) =~= tokens(s@));
    out
}

/// Splits `s` into its lines.
pub fn split_lines(s: &Vec<char>) -> (r: Vec<Vec<char>>)
    ensures
        r@.map_values(|l: Vec<char>| l@) == lines(s@),
{
    let mut out: Vec<Vec<char>> = Vec::new();
    let mut i: usize = 0;
    assert(s@.skip(0) =~= s@);
    assert(out@.map_values(|l: Vec<char>| l@) =~= Seq::<Seq<char>>::empty());
    while i < s.len()
        invariant
            i <= s.len(),
            lines(s@) == out@.map_values(|l: Vec<char>| l@) + lines(s@.skip(i as int)),
        decreases s.len() - i,
    {
        let rest = Ghost(s@.skip(i as int));
        let mut line: Vec<char> = Vec::new();
        let mut j: usize = i;
        while j < s.len() && s[j] != '\n'
            invariant
                i <= j <= s.len(),
                line@ == s@.subrange(i as int, j as int),
                forall|k: int| i <= k < j ==> #[trigger] s@[k] != '\n',
            decreases s.len() - j,
        {
            line.push(s[j]);
            j = j + 1;
            assert(line@ =~= s@.subrange(i as int, j as int));
        }
        proof {
            lemma_run_len_at(s@, newline_stop(), i as int, j as int);
            assert(rest@.take(j - i) =~= line@);
        }
        let ghost before = out@.map_values(|l: Vec<char>| l@);
        out.push(line);
        assert(out@.map_values(|l: Vec<char>| l@) =~= before.push(s@.subrange(i as int, j as int)));
        if j < s.len() {
            proof {
                assert(rest@.skip(j - i + 1) =~= s@.skip(j + 1));
                assert(before + (seq![s@.subrange(i as int, j as int)] + lines(s@.skip(j + 1)))
                    =~= out@.map_values(|l: Vec<char>| l@) + lines(s@.skip(j + 1)));
            }
            i = j + 1;
        } else {
            proof {
                assert(rest@ =~= s@.subrange(i as int, j as int));
                assert(s@.skip(j as int) =~= Seq::<char>::empty());
                assert(before + seq![rest@] =~= out@.map_values(|l: Vec<char>| l@) + lines(
                    s@.skip(j as int),
                ));
            }
            i = j;
        }
    }
    assert(s@.skip(i as int) =~= Seq::<char>::empty());
    assert(out@.map_values(|l: Vec<char>| l@) =~= lines(s@));
    out
}

/// Relies on `String::push`: appends one character.
#[verifier::external_body]
pub(crate) fn push_char(s: &mut String, c: char)
    ensures
        final(s)@ == old(s)@.push(c),
{
    s.push(c)
}

/// Appends the characters `cs` to `s`.
pub(crate) fn push_chars(s: &mut String, cs: &Vec<char>)
    ensures
        final(s)@ == old(s)@ + cs@,
{
    let mut i: usize = 0;
    while i < cs.len()
        invariant
            i <= cs.len(),
            s@ == old(s)@ + cs@.take(i as int),
        decreases cs.len() - i,
    {
        push_char(s, cs[i]);
        i = i + 1;
        assert(s@ =~= old(s)@ + cs@.take(i as int));
    }
    assert(cs@.take(i as int) =~= cs@);
}

} // verus!
