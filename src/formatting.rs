//! Text clean-up steps applied to the lines of a markdown block.
use vstd::prelude::*;

use crate::text::{push_char, trim_text, trimmed};

verus! {

/// Whether `regex::Regex::new` accepts `pattern` (with its default limits).
pub uninterp spec fn regex_valid(pattern: Seq<char>) -> bool;

/// What `regex::Regex::replace_all` makes of `haystack` when every match of
/// `pattern` is replaced by `replacement`.
pub uninterp spec fn regex_replaced(pattern: Seq<char>, haystack: Seq<char>, replacement: Seq<char>) -> Seq<char>;

/// Relies on `regex::Regex::new`, which fails exactly on the patterns it
/// does not accept, and on `regex::Regex::replace_all`, which replaces every
/// non-overlapping match in the haystack.
#[verifier::external_body]
fn regex_replace_all(pattern: &str, haystack: &str, replacement: &str) -> (r: Option<String>)
    ensures
        r is Some <==> regex_valid(pattern@),
        r matches Some(t) ==> t@ == regex_replaced(pattern@, haystack@, replacement@),
{
    match regex::Regex::new(pattern) {
        Ok(re) => Some(re.replace_all(haystack, replacement).to_string()),
        Err(_) => None,
    }
}

#[derive(Clone, Copy, Debug, PartialEq, Eq)]
pub enum Formatter {
    RegexReplace(RegexReplaceFormatter),
    StringReplace(),
    Trim,
    AddSpaceToLineEnd,
}

#[derive(Clone, Copy, Debug, PartialEq, Eq)]
pub struct RegexReplaceFormatter {
    pub pattern: &'static str,
    pub replacement: &'static str,
}

/// The steps run on each line of a block, then on the joined block.
#[derive(Clone, Debug, PartialEq, Eq)]
pub struct Formatters {
    preprocessors: Vec<Formatter>,
    formatters: Vec<Formatter>,
}

/// What one step makes of `v`. A replacement whose pattern does not compile
/// leaves `v` unchanged.
pub open spec fn format_spec(f: Formatter, v: Seq<char>) -> Seq<char> {
    match f {
        Formatter::RegexReplace(rr) => if regex_valid(rr.pattern@) {
            regex_replaced(rr.pattern@, v, rr.replacement@)
        } else {
            v
        },
        Formatter::StringReplace() => v,
        Formatter::Trim => trimmed(v),
        Formatter::AddSpaceToLineEnd => v.push(' '),
    }
}

/// `v` run through the steps `fs`, first to last.
pub open spec fn format_all(fs: Seq<Formatter>, v: Seq<char>) -> Seq<char>
    decreases fs.len(),
{
    if fs.len() == 0 {
        v
    } else {
        format_spec(fs.last(), format_all(fs.drop_last(), v))
    }
}

/// No step is a string replacement, which has no behaviour yet.
pub open spec fn supported(fs: Seq<Formatter>) -> bool {
    forall|i: int| 0 <= i < fs.len() ==> !(#[trigger] fs[i] is StringReplace)
}

impl Formatter {
    pub fn run(&self, value: String) -> (r: String)
        requires
            !(self is StringReplace),
        ensures
            r@ == format_spec(*self, value@),
    {
        let mut value = value;
        match self {
            Formatter::RegexReplace(rr) => match regex_replace_all(rr.pattern, value.as_str(), rr.replacement) {
                Some(t) => t,
                None => value,
            },
            Formatter::Trim => trim_text(value.as_str()),
            Formatter::AddSpaceToLineEnd => {
                push_char(&mut value, ' ');
                value
            },
            Formatter::StringReplace() => value,
        }
    }
}

fn run_all(fs: &Vec<Formatter>, value: String) -> (r: String)
    requires
        supported(fs@),
    ensures
        r@ == format_all(fs@, value@),
{
    let mut v = value;
    let mut i: usize = 0;
    while i < fs.len()
        invariant
            supported(fs@),
            0 <= i <= fs@.len(),
            v@ == format_all(fs@.subrange(0, i as int), value@),
        decreases fs@.len() - i,
    {
        let ghost before = v@;
        v = fs[i].run(v);
        proof {
            assert(fs@.subrange(0, i + 1).drop_last() =~= fs@.subrange(0, i as int));
        }
        i = i + 1;
    }
    proof {
        assert(fs@.subrange(0, fs@.len() as int) =~= fs@);
    }
    v
}

impl Formatters {
    /// The steps run on each line.
    pub closed spec fn preprocessor_seq(&self) -> Seq<Formatter> {
        self.preprocessors@
    }

    /// The steps run on the joined block.
    pub closed spec fn formatter_seq(&self) -> Seq<Formatter> {
        self.formatters@
    }

    /// Every step has a behaviour.
    pub open spec fn wf(&self) -> bool {
        supported(self.preprocessor_seq()) && supported(self.formatter_seq())
    }

    pub fn empty() -> (r: Formatters)
        ensures
            r.wf(),
            r.preprocessor_seq() == Seq::<Formatter>::empty(),
            r.formatter_seq() == Seq::<Formatter>::empty(),
    {
        Formatters { preprocessors: Vec::new(), formatters: Vec::new() }
    }

    /// Lines are trimmed and end in a space; the joined block is trimmed,
    /// then loses a leading `* ` and a leading one- or two-digit number
    /// followed by `. `.
    pub fn default() -> (r: Formatters)
        ensures
            r.wf(),
            r.preprocessor_seq() == seq![Formatter::Trim, Formatter::AddSpaceToLineEnd],
            r.formatter_seq() == seq![
                Formatter::Trim,
                Formatter::RegexReplace(RegexReplaceFormatter { pattern: "^(\\* )", replacement: "" }),
                Formatter::RegexReplace(RegexReplaceFormatter { pattern: "^([0-9]\\. )|^([0-9][0-9]\\. )", replacement: "" }),
            ],
    {
        let mut preprocessors: Vec<Formatter> = Vec::new();
        preprocessors.push(Formatter::Trim);
        preprocessors.push(Formatter::AddSpaceToLineEnd);
        let mut formatters: Vec<Formatter> = Vec::new();
        formatters.push(Formatter::Trim);
        formatters.push(Formatter::RegexReplace(RegexReplaceFormatter { pattern: "^(\\* )", replacement: "" }));
        formatters.push(
            Formatter::RegexReplace(RegexReplaceFormatter { pattern: "^([0-9]\\. )|^([0-9][0-9]\\. )", replacement: "" }),
        );
        let r = Formatters { preprocessors, formatters };
        assert(r.preprocessor_seq() =~= seq![Formatter::Trim, Formatter::AddSpaceToLineEnd]);
        assert(r.formatter_seq() =~= seq![
            Formatter::Trim,
            Formatter::RegexReplace(RegexReplaceFormatter { pattern: "^(\\* )", replacement: "" }),
            Formatter::RegexReplace(RegexReplaceFormatter { pattern: "^([0-9]\\. )|^([0-9][0-9]\\. )", replacement: "" }),
        ]);
        r
    }

    pub fn run_preprocessors(&self, value: String) -> (r: String)
        requires
            self.wf(),
        ensures
            r@ == format_all(self.preprocessor_seq(), value@),
    {
        run_all(&self.preprocessors, value)
    }

    pub fn run(&self, value: String) -> (r: String)
        requires
            self.wf(),
        ensures
            r@ == format_all(self.formatter_seq(), value@),
    {
        run_all(&self.formatters, value)
    }
}

} // verus!
