//! The Argument Parser: checks the logical arguments of one invocation and
//! extracts the file path and the searched word.
use vstd::prelude::*;
use crate::text::{chars_of, push_chars, run_len};

verus! {

/// The desktop directory that the `desk/` shortcut stands for, unless the
/// caller supplies another one.
pub const DESKTOP_SHORT_PATH: &'static str = "C:\\Users\\User\\Desktop";

/// The logical arguments of an invocation, as character sequences.
pub open spec fn arg_views(args: Seq<String>) -> Seq<Seq<char>> {
    args.map_values(|a: String| a@)
}

/// The command is followed by the help flag alone.
pub open spec fn is_help_request(a: Seq<Seq<char>>) -> bool {
    a.len() == 2 && a[1] == "-help"@
}

/// The path's stem ends at its first `'.'`.
pub open spec fn dot_stop() -> spec_fn(char) -> bool {
    |c: char| c == '.'
}

/// The extension of a path: everything from its first `'.'` on, or `None`
/// where the path holds no `'.'`.
pub open spec fn extension(p: Seq<char>) -> Option<Seq<char>> {
    let n = run_len(p, dot_stop());
    if n < p.len() {
        Some(p.skip(n as int))
    } else {
        None
    }
}

/// The extensions a searched file may have.
pub open spec fn is_supported_ext(e: Seq<char>) -> bool {
    e == ".txt"@ || e == ".html"@ || e == ".xml"@ || e == ".json"@
}

/// `p` holds the shortcut `desk/` somewhere.
pub open spec fn has_shortcut(p: Seq<char>) -> bool {
    exists|i: int| 0 <= i && i + 5 <= p.len() && #[trigger] p.subrange(i, i + 5) == "desk/"@
}

/// The path after shortcut expansion: where `desk/` occurs, the first four
/// characters give way to `desktop`.
pub open spec fn expand(p: Seq<char>, desktop: Seq<char>) -> Seq<char> {
    if has_shortcut(p) {
        desktop + p.skip(4)
    } else {
        p
    }
}

/// The first rule that the arguments break, in the order the rules are
/// checked, or `None` where they are a well-formed search request.
pub open spec fn parse_error(a: Seq<Seq<char>>) -> Option<ParseError> {
    if a.len() != 5 {
        Some(ParseError::InvalidArgsLen)
    } else if a[0] != "fw"@ {
        Some(ParseError::InvalidCmd)
    } else if !a.contains("-f"@) || !a.contains("-w"@) {
        Some(ParseError::MissingOption)
    } else if extension(a[2]) is None {
        Some(ParseError::MalformedPath)
    } else if !is_supported_ext(extension(a[2])->0) {
        Some(ParseError::FileExtNotSupported)
    } else {
        None
    }
}

/// Why the arguments were refused.
#[derive(Debug, Clone, Copy, PartialEq, Eq, Structural)]
pub enum ParseError {
    InvalidCmd,
    InvalidArgsLen,
    MissingOption,
    FileExtNotSupported,
    /// The file path has no `'.'` and so no extension.
    MalformedPath,
}

impl ParseError {
    pub fn message(&self) -> (r: String)
        ensures
            r@ == self.message_spec(),
    {
        match self {
            ParseError::InvalidCmd => String::from_str("invalid cmd"),
            ParseError::InvalidArgsLen => String::from_str("invalid args len"),
            ParseError::MissingOption => String::from_str("missing option"),
            ParseError::FileExtNotSupported => String::from_str("file ext not supported"),
            ParseError::MalformedPath => String::from_str("malformed path"),
        }
    }

    pub open spec fn message_spec(&self) -> Seq<char> {
        match self {
            ParseError::InvalidCmd => "invalid cmd"@,
            ParseError::InvalidArgsLen => "invalid args len"@,
            ParseError::MissingOption => "missing option"@,
            ParseError::FileExtNotSupported => "file ext not supported"@,
            ParseError::MalformedPath => "malformed path"@,
        }
    }
}

/// Whether `ext` is one of the supported extensions.
pub fn is_supported_file_ext(ext: &String) -> (r: bool)
    ensures
        r == is_supported_ext(ext@),
{
    *ext == String::from_str(".txt") || *ext == String::from_str(".html") || *ext
        == String::from_str(".xml") || *ext == String::from_str(".json")
}

/// Whether `s` holds exactly the text `lit`.
fn equals_lit(s: &String, lit: &str) -> (r: bool)
    ensures
        r == (s@ == lit@),
{
    *s == String::from_str(lit)
}

/// Whether some argument is exactly `lit`.
fn contains_arg(args: &Vec<String>, lit: &str) -> (r: bool)
    ensures
        r == arg_views(args@).contains(lit@),
{
    let ghost a = arg_views(args@);
    let mut i: usize = 0;
    while i < args.len()
        invariant
            i <= args.len(),
            a == arg_views(args@),
            forall|k: int| 0 <= k < i ==> a[k] != lit@,
        decreases args.len() - i,
    {
        if equals_lit(&args[i], lit) {
            assert(a[i as int] == lit@);
            return true;
        }
        i = i + 1;
    }
    false
}

/// The index of the first `'.'` of `cs`, or its length.
fn first_dot(cs: &Vec<char>) -> (r: usize)
    ensures
        r == run_len(cs@, dot_stop()),
{
    let mut i: usize = 0;
    while i < cs.len() && cs[i] != '.'
        invariant
            i <= cs.len(),
            forall|k: int| 0 <= k < i ==> #[trigger] cs@[k] != '.',
        decreases cs.len() - i,
    {
        i = i + 1;
    }
    proof {
        crate::text::lemma_run_len_at(cs@, dot_stop(), 0, i as int);
        assert(cs@.skip(0) =~= cs@);
    }
    i
}

/// Whether `desk/` occurs in `cs`.
fn find_shortcut(cs: &Vec<char>) -> (r: bool)
    ensures
        r == has_shortcut(cs@),
{
    let mut i: usize = 0;
    while i < cs.len() && cs.len() - i >= 5
        invariant
            i <= cs.len(),
            forall|k: int|
                0 <= k < i && k + 5 <= cs@.len() ==> #[trigger] cs@.subrange(k, k + 5)
                    != "desk/"@,
        decreases cs.len() - i,
    {
        proof {
            reveal_strlit("desk/");
        }
        if cs[i] == 'd' && cs[i + 1] == 'e' && cs[i + 2] == 's' && cs[i + 3] == 'k' && cs[i + 4]
            == '/' {
            assert(cs@.subrange(i as int, i + 5) =~= "desk/"@);
            return true;
        }
        assert(cs@.subrange(i as int, i + 5) != "desk/"@) by {
            if cs@.subrange(i as int, i + 5) == "desk/"@ {
                assert(cs@.subrange(i as int, i + 5)[0] == 'd');
                assert(cs@.subrange(i as int, i + 5)[1] == 'e');
                assert(cs@.subrange(i as int, i + 5)[2] == 's');
                assert(cs@.subrange(i as int, i + 5)[3] == 'k');
                assert(cs@.subrange(i as int, i + 5)[4] == '/');
            }
        }
        i = i + 1;
    }
    false
}

/// The chars of `cs` from index `from` on.
fn tail_of(cs: &Vec<char>, from: usize) -> (r: Vec<char>)
    requires
        from <= cs.len(),
    ensures
        r@ == cs@.skip(from as int),
{
    let mut out: Vec<char> = Vec::new();
    let mut i: usize = from;
    while i < cs.len()
        invariant
            from <= i <= cs.len(),
            out@ == cs@.subrange(from as int, i as int),
        decreases cs.len() - i,
    {
        out.push(cs[i]);
        i = i + 1;
        assert(out@ =~= cs@.subrange(from as int, i as int));
    }
    out
}

/// What parsing the arguments `a` returns: `Ok(None)` for a help request,
/// else the first rule broken, else the request with its path expanded.
pub open spec fn parsed(a: Seq<Seq<char>>, desktop: Seq<char>, r: Result<Option<ParseArgs>, ParseError>) -> bool {
    if is_help_request(a) {
        r matches Ok(None)
    } else {
        match parse_error(a) {
            Some(e) => r == Err::<Option<ParseArgs>, ParseError>(e),
            None => match r {
                Ok(Some(p)) => {
                    &&& p.cmd@ == a[0]
                    &&& p.file@ == expand(a[2], desktop)
                    &&& p.word@ == a[4]
                },
                _ => false,
            },
        }
    }
}

/// Any number of arguments but five is refused with `InvalidArgsLen`,
/// unless it is a help request.
pub proof fn lemma_bad_count_rejected(
    a: Seq<Seq<char>>,
    desktop: Seq<char>,
    r: Result<Option<ParseArgs>, ParseError>,
)
    requires
        a.len() != 5,
        !is_help_request(a),
        parsed(a, desktop, r),
    ensures
        r == Err::<Option<ParseArgs>, ParseError>(ParseError::InvalidArgsLen),
{
}

proof fn lemma_run_len_le_stop(p: Seq<char>, stop: spec_fn(char) -> bool, k: int)
    requires
        0 <= k < p.len(),
        stop(p[k]),
    ensures
        run_len(p, stop) <= k,
    decreases k,
{
    if k > 0 && !stop(p[0]) {
        lemma_run_len_le_stop(p.drop_first(), stop, k - 1);
    }
}

/// A file path ending in `.pdf` is refused with `FileExtNotSupported` in an
/// otherwise well-formed search request.
pub proof fn lemma_pdf_rejected(
    a: Seq<Seq<char>>,
    desktop: Seq<char>,
    r: Result<Option<ParseArgs>, ParseError>,
)
    requires
        a.len() == 5,
        a[0] == "fw"@,
        a.contains("-f"@),
        a.contains("-w"@),
        a[2].len() >= 4,
        a[2].skip(a[2].len() - 4) == ".pdf"@,
        parsed(a, desktop, r),
    ensures
        r == Err::<Option<ParseArgs>, ParseError>(ParseError::FileExtNotSupported),
{
    reveal_strlit(".pdf");
    reveal_strlit(".txt");
    reveal_strlit(".html");
    reveal_strlit(".xml");
    reveal_strlit(".json");
    reveal_strlit("-help");
    let p = a[2];
    let k = p.len() - 4;
    assert(p.skip(k)[0] == '.');
    lemma_run_len_le_stop(p, dot_stop(), k);
    let e = extension(p)->0;
    assert(e.last() == p.last());
    assert(p.skip(k)[3] == 'f');
    assert(".txt"@.last() == 't');
    assert(".html"@.last() == 'l');
    assert(".xml"@.last() == 'l');
    assert(".json"@.last() == 'n');
}

/// A well-formed search request.
#[derive(Debug)]
pub struct ParseArgs {
    pub cmd: String,
    pub file: String,
    pub word: String,
}

impl ParseArgs {
    /// Parses the logical arguments, expanding the `desk/` shortcut to
    /// `desktop`. `Ok(None)` asks for the help screen. The file path and
    /// the word are read from positions 2 and 4.
    pub fn parse_with_desktop(args: &Vec<String>, desktop: &str) -> (r: Result<
        Option<ParseArgs>,
        ParseError,
    >)
        ensures
            parsed(arg_views(args@), desktop@, r),
    {
        let ghost a = arg_views(args@);
        if args.len() == 2 && equals_lit(&args[1], "-help") {
            return Ok(None);
        }
        if args.len() != 5 {
            return Err(ParseError::InvalidArgsLen);
        }
        assert(a[0] == args@[0]@ && a[2] == args@[2]@ && a[4] == args@[4]@);
        if !equals_lit(&args[0], "fw") {
            return Err(ParseError::InvalidCmd);
        }
        if !contains_arg(args, "-f") || !contains_arg(args, "-w") {
            return Err(ParseError::MissingOption);
        }
        let cs = chars_of(args[2].as_str());
        let dot = first_dot(&cs);
        if dot >= cs.len() {
            return Err(ParseError::MalformedPath);
        }
        let ext = String::from_str(args[2].as_str().substring_char(dot, cs.len()));
        if !is_supported_file_ext(&ext) {
            return Err(ParseError::FileExtNotSupported);
        }
        let file = if find_shortcut(&cs) {
            let mut f = String::from_str(desktop);
            let tail = tail_of(&cs, 4);
            push_chars(&mut f, &tail);
            f
        } else {
            args[2].clone()
        };
        Ok(Some(ParseArgs { cmd: args[0].clone(), file, word: args[4].clone() }))
    }

    /// Parses the logical arguments with the `desk/` shortcut standing for
    /// `DESKTOP_SHORT_PATH`.
    pub fn parse(args: &Vec<String>) -> (r: Result<Option<ParseArgs>, ParseError>)
        ensures
            parsed(arg_views(args@), DESKTOP_SHORT_PATH@, r),
    {
        ParseArgs::parse_with_desktop(args, DESKTOP_SHORT_PATH)
    }
}

} // verus!
