//! The Word Finder: scans text line by line, marks each token equal to the
//! searched word, counts the marks and rebuilds the text.
use owo_colors::OwoColorize;
use vstd::prelude::*;
use crate::text::{
    chars_of, is_space, lemma_run_len_bound, lines, newline_stop, push_char, push_chars,
    space_stop, split_lines, split_tokens, tokens,
};

verus! {

/// `t` wrapped in the ANSI escapes that turn the foreground red and back.
pub open spec fn red(t: Seq<char>) -> Seq<char> {
    seq!['\x1b', '[', '3', '1', 'm'] + t + seq!['\x1b', '[', '3', '9', 'm']
}

/// A token as it appears in the annotated text.
pub open spec fn mark(t: Seq<char>, w: Seq<char>) -> Seq<char> {
    if t == w {
        red(t)
    } else {
        t
    }
}

/// The pieces of `parts` with one `sep` between each two neighbours.
pub open spec fn join(parts: Seq<Seq<char>>, sep: char) -> Seq<char>
    decreases parts.len(),
{
    if parts.len() == 0 {
        seq![]
    } else if parts.len() == 1 {
        parts[0]
    } else {
        join(parts.drop_last(), sep) + seq![sep] + parts.last()
    }
}

/// How many of `ts` equal `w`.
pub open spec fn hits(ts: Seq<Seq<char>>, w: Seq<char>) -> nat
    decreases ts.len(),
{
    if ts.len() == 0 {
        0
    } else {
        hits(ts.drop_last(), w) + if ts.last() == w {
            1nat
        } else {
            0nat
        }
    }
}

/// How many tokens of the lines `ls` equal `w`.
pub open spec fn total(ls: Seq<Seq<char>>, w: Seq<char>) -> nat
    decreases ls.len(),
{
    if ls.len() == 0 {
        0
    } else {
        total(ls.drop_last(), w) + hits(tokens(ls.last()), w)
    }
}

/// A line rebuilt from its tokens, single-spaced, with the matches marked.
pub open spec fn marked_line(l: Seq<char>, w: Seq<char>) -> Seq<char> {
    join(tokens(l).map_values(|t: Seq<char>| mark(t, w)), ' ')
}

/// The annotated text: each line of `c` rebuilt, joined by `'\n'`.
pub open spec fn annotated(c: Seq<char>, w: Seq<char>) -> Seq<char> {
    join(lines(c).map_values(|l: Seq<char>| marked_line(l, w)), '\n')
}

/// The number of tokens of `c` that equal `w`.
pub open spec fn occurrences(c: Seq<char>, w: Seq<char>) -> nat {
    hits(tokens(c), w)
}

/// What a successful search found.
#[derive(Debug)]
pub struct FoundItem {
    pub word: String,
    pub count: usize,
    pub result: String,
}

/// Why a search failed.
#[derive(Debug, Clone, Copy, PartialEq, Eq, Structural)]
pub enum FindError {
    /// No token equals the searched word.
    NotFound,
}

impl FindError {
    pub fn message(&self) -> (r: String)
        ensures
            r@ == self.message_spec(),
    {
        match self {
            FindError::NotFound => String::from_str("En az 1 tane bile kelime bulunamadı"),
        }
    }

    pub open spec fn message_spec(&self) -> Seq<char> {
        match self {
            FindError::NotFound => "En az 1 tane bile kelime bulunamadı"@,
        }
    }
}

/// Relies on owo_colors' `red` and its `Display`: the text between the escape
/// codes `ESC[31m` and `ESC[39m`.
#[verifier::external_body]
fn paint_red(w: &str) -> (r: String)
    ensures
        r@ == red(w@),
{
    w.red().to_string()
}

/// Whether `a` and `b` hold the same characters.
fn same_chars(a: &Vec<char>, b: &Vec<char>) -> (r: bool)
    ensures
        r == (a@ == b@),
{
    if a.len() != b.len() {
        return false;
    }
    let mut i: usize = 0;
    while i < a.len()
        invariant
            a.len() == b.len(),
            i <= a.len(),
            forall|k: int| 0 <= k < i ==> a@[k] == b@[k],
        decreases a.len() - i,
    {
        if a[i] != b[i] {
            return false;
        }
        i = i + 1;
    }
    assert(a@ =~= b@);
    true
}

pub proof fn lemma_hits_concat(a: Seq<Seq<char>>, b: Seq<Seq<char>>, w: Seq<char>)
    ensures
        hits(a + b, w) == hits(a, w) + hits(b, w),
    decreases b.len(),
{
    if b.len() > 0 {
        lemma_hits_concat(a, b.drop_last(), w);
        assert((a + b).drop_last() =~= a + b.drop_last());
    } else {
        assert(a + b =~= a);
    }
}

pub proof fn lemma_total_concat(a: Seq<Seq<char>>, b: Seq<Seq<char>>, w: Seq<char>)
    ensures
        total(a + b, w) == total(a, w) + total(b, w),
    decreases b.len(),
{
    if b.len() > 0 {
        lemma_total_concat(a, b.drop_last(), w);
        assert((a + b).drop_last() =~= a + b.drop_last());
    } else {
        assert(a + b =~= a);
    }
}

pub proof fn lemma_total_single(l: Seq<char>, w: Seq<char>)
    ensures
        total(seq![l], w) == hits(tokens(l), w),
{
    let one = seq![l];
    assert(one.drop_last() =~= Seq::<Seq<char>>::empty());
    assert(total(one.drop_last(), w) == 0);
    assert(one.last() == l);
}

pub proof fn lemma_hits_le(ts: Seq<Seq<char>>, w: Seq<char>)
    ensures
        hits(ts, w) <= ts.len(),
    decreases ts.len(),
{
    if ts.len() > 0 {
        lemma_hits_le(ts.drop_last(), w);
    }
}

pub proof fn lemma_tokens_len(s: Seq<char>)
    ensures
        tokens(s).len() <= s.len(),
    decreases s.len(),
{
    if s.len() > 0 {
        if is_space(s[0]) {
            lemma_tokens_len(s.drop_first());
        } else {
            lemma_run_len_bound(s, space_stop());
            let n = crate::text::run_len(s, space_stop()) as int;
            lemma_tokens_len(s.skip(n));
        }
    }
}

/// Counting line by line gives the count over the whole text.
pub proof fn lemma_occurrences_by_lines(c: Seq<char>, w: Seq<char>)
    ensures
        total(lines(c), w) == occurrences(c, w),
    decreases c.len(),
{
    if c.len() > 0 {
        lemma_run_len_bound(c, newline_stop());
        let n = crate::text::run_len(c, newline_stop()) as int;
        if n < c.len() {
            lemma_occurrences_by_lines(c.skip(n + 1), w);
            lemma_total_concat(seq![c.take(n)], lines(c.skip(n + 1)), w);
            lemma_total_single(c.take(n), w);
            assert(lines(c) == seq![c.take(n)] + lines(c.skip(n + 1)));
            assert(c =~= c.take(n) + seq![c[n]] + c.skip(n + 1));
            crate::text::lemma_tokens_split(c.take(n), c[n], c.skip(n + 1));
            lemma_hits_concat(tokens(c.take(n)), tokens(c.skip(n + 1)), w);
        } else {
            assert(lines(c) == seq![c]);
            lemma_total_single(c, w);
        }
    } else {
        assert(lines(c) =~= Seq::<Seq<char>>::empty());
        assert(tokens(c) =~= Seq::<Seq<char>>::empty());
    }
}

/// No text holds more matching tokens than characters.
pub proof fn lemma_occurrences_le(c: Seq<char>, w: Seq<char>)
    ensures
        occurrences(c, w) <= c.len(),
{
    lemma_hits_le(tokens(c), w);
    lemma_tokens_len(c);
}

pub proof fn lemma_join_push(p: Seq<Seq<char>>, x: Seq<char>, sep: char)
    ensures
        join(p.push(x), sep) == if p.len() == 0 {
            x
        } else {
            join(p, sep) + seq![sep] + x
        },
{
    assert(p.push(x).drop_last() =~= p);
}

/// What searching `c` for `w` returns: the word, its count and the
/// annotated text where some token matches, `NotFound` where none does.
pub open spec fn find_outcome(c: Seq<char>, w: Seq<char>, r: Result<FoundItem, FindError>) -> bool {
    match r {
        Ok(item) => {
            &&& occurrences(c, w) > 0
            &&& item.word@ == w
            &&& item.count == occurrences(c, w)
            &&& item.result@ == annotated(c, w)
        },
        Err(e) => {
            &&& e == FindError::NotFound
            &&& occurrences(c, w) == 0
        },
    }
}

/// Searching the same content for the same word twice gives the same
/// result both times.
pub proof fn lemma_find_idempotent(
    c: Seq<char>,
    w: Seq<char>,
    r1: Result<FoundItem, FindError>,
    r2: Result<FoundItem, FindError>,
)
    requires
        find_outcome(c, w, r1),
        find_outcome(c, w, r2),
    ensures
        match (r1, r2) {
            (Ok(a), Ok(b)) => a.word@ == b.word@ && a.count == b.count && a.result@ == b.result@,
            (Err(x), Err(y)) => x == y,
            _ => false,
        },
{
}

/// Searches `file_content` for the tokens equal to `word`.
pub struct FindWord;

impl FindWord {
    /// Scans `file_content` line by line; each token equal to `word` is
    /// marked red and counted. Fails with `NotFound` exactly when no token
    /// matches.
    pub fn find(file_content: String, word: String) -> (r: Result<FoundItem, FindError>)
        ensures
            find_outcome(file_content@, word@, r),
    {
        let cs = chars_of(file_content.as_str());
        let wc = chars_of(word.as_str());
        let painted = paint_red(word.as_str());
        let ls = split_lines(&cs);
        let ghost c = file_content@;
        let ghost w = word@;
        let ghost lv = ls@.map_values(|l: Vec<char>| l@);
        proof {
            lemma_occurrences_le(c, w);
            lemma_occurrences_by_lines(c, w);
        }
        let mut result = String::new();
        let mut count: usize = 0;
        let mut li: usize = 0;
        assert(lv.take(0).map_values(|l: Seq<char>| marked_line(l, w)) =~= Seq::<Seq<char>>::empty());
        while li < ls.len()
            invariant
                li <= ls.len(),
                lv == lines(c),
                lv == ls@.map_values(|l: Vec<char>| l@),
                lv.len() == ls.len(),
                wc@ == w,
                painted@ == red(w),
                total(lv, w) <= cs.len(),
                result@ == join(lv.take(li as int).map_values(|l: Seq<char>| marked_line(l, w)), '\n'),
                count == total(lv.take(li as int), w),
            decreases ls.len() - li,
        {
            let ghost before = result@;
            if li > 0 {
                push_char(&mut result, '\n');
            }
            let ghost base = result@;
            let ts = split_tokens(&ls[li]);
            let ghost l = lv[li as int];
            let ghost tv = ts@.map_values(|t: Vec<char>| t@);
            let ghost c0 = count as int;
            proof {
                assert(lv[li as int] == ls@[li as int]@);
                assert(lv.take(li + 1) =~= lv.take(li as int).push(l));
                assert(lv.take(li + 1).drop_last() =~= lv.take(li as int));
                lemma_total_concat(lv.take(li + 1), lv.skip(li + 1), w);
                assert(lv.take(li + 1) + lv.skip(li + 1) =~= lv);
                assert(tv.take(0).map_values(|t: Seq<char>| mark(t, w)) =~= Seq::<Seq<char>>::empty());
            }
            let mut ti: usize = 0;
            while ti < ts.len()
                invariant
                    ti <= ts.len(),
                    tv == tokens(l),
                    tv == ts@.map_values(|t: Vec<char>| t@),
                    tv.len() == ts.len(),
                    wc@ == w,
                    painted@ == red(w),
                    c0 + hits(tv, w) <= cs.len(),
                    result@ == base + join(tv.take(ti as int).map_values(|t: Seq<char>| mark(t, w)), ' '),
                    count == c0 + hits(tv.take(ti as int), w),
                decreases ts.len() - ti,
            {
                let ghost mid = result@;
                let ghost t = tv[ti as int];
                if ti > 0 {
                    push_char(&mut result, ' ');
                }
                proof {
                    assert(tv.take(ti + 1) =~= tv.take(ti as int).push(t));
                    lemma_hits_concat(tv.take(ti + 1), tv.skip(ti + 1), w);
                    assert(tv.take(ti + 1) + tv.skip(ti + 1) =~= tv);
                }
                assert(tv[ti as int] == ts@[ti as int]@);
                assert(tv.take(ti + 1).drop_last() =~= tv.take(ti as int));
                let ghost sep_done = result@;
                if same_chars(&ts[ti], &wc) {
                    assert(hits(tv.take(ti + 1), w) == hits(tv.take(ti as int), w) + 1);
                    result.append(painted.as_str());
                    count = count + 1;
                } else {
                    push_chars(&mut result, &ts[ti]);
                }
                proof {
                    let pm = tv.take(ti as int).map_values(|t: Seq<char>| mark(t, w));
                    assert(result@ == sep_done + mark(t, w));
                    if ti == 0 {
                        assert(pm =~= Seq::<Seq<char>>::empty());
                        assert(mid =~= base);
                        assert(result@ =~= base + mark(t, w));
                    } else {
                        assert(result@ =~= base + (join(pm, ' ') + seq![' '] + mark(t, w)));
                    }
                    assert(tv.take(ti + 1).map_values(|t: Seq<char>| mark(t, w)) =~= pm.push(mark(t, w)));
                    lemma_join_push(pm, mark(t, w), ' ');
                }
                ti = ti + 1;
            }
            proof {
                assert(tv.take(ti as int) =~= tv);
                let pl = lv.take(li as int).map_values(|l: Seq<char>| marked_line(l, w));
                assert(lv.take(li + 1).map_values(|l: Seq<char>| marked_line(l, w)) =~= pl.push(marked_line(l, w)));
                lemma_join_push(pl, marked_line(l, w), '\n');
                if li == 0 {
                    assert(base =~= Seq::<char>::empty());
                    assert(result@ =~= marked_line(l, w));
                }
                assert(lv.take(li + 1).drop_last() =~= lv.take(li as int));
            }
            li = li + 1;
        }
        proof {
            assert(lv.take(li as int) =~= lv);
        }
        if count == 0 {
            return Err(FindError::NotFound);
        }
        Ok(FoundItem { word, count, result })
    }
}

} // verus!
