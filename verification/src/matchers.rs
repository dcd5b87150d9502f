//! The regex boundary: a compiled pattern paired with its pattern text,
//! and the two names under which the contracts speak of what the regex
//! engine decides.

use vstd::prelude::*;

verus! {

#[verifier::external_type_specification]
#[verifier::external_body]
pub struct ExRegex(regex::Regex);

/// Whether the regex engine accepts `pattern` as a pattern. Compilation is
/// deterministic, so this depends on the pattern text alone.
pub uninterp spec fn regex_compiles(pattern: Seq<char>) -> bool;

/// Whether the regex compiled from `pattern` matches somewhere in `text`.
/// Matching is deterministic, so this depends on the two texts alone.
pub uninterp spec fn regex_matches(pattern: Seq<char>, text: Seq<char>) -> bool;

/// A compiled regex together with the pattern text it was compiled from.
pub struct CompiledRegex {
    pattern: Vec<char>,
    re: regex::Regex,
}

impl CompiledRegex {
    /// The pattern text this regex was compiled from.
    pub closed spec fn pattern_view(&self) -> Seq<char> {
        self.pattern@
    }

    /// Relies on regex::Regex::new: whether a pattern compiles is a function
    /// of the pattern text alone, named `regex_compiles`.
    #[verifier::external_body]
    pub(crate) fn compile(pattern: Vec<char>) -> (r: Option<CompiledRegex>)
        ensures
            r is Some <==> regex_compiles(pattern@),
            r matches Some(m) ==> m.pattern_view() == pattern@,
    {
        let text: String = pattern.iter().collect();
        match regex::Regex::new(&text) {
            Ok(re) => Some(CompiledRegex { pattern, re }),
            Err(_) => None,
        }
    }

    /// Relies on regex::Regex::is_match: the result is a function of the
    /// pattern and the haystack alone, named `regex_matches`. The `re` field
    /// always holds the compilation of `pattern`: `compile` above is the one
    /// constructor of this type.
    #[verifier::external_body]
    pub(crate) fn is_match(&self, text: &str) -> (r: bool)
        ensures
            r == regex_matches(self.pattern_view(), text@),
    {
        self.re.is_match(text)
    }
}

/// The characters the regex syntax reserves: escaping them in a pattern
/// makes the pattern match them literally.
pub open spec fn spec_is_meta(c: char) -> bool {
    ||| c == '\\'
    ||| c == '.'
    ||| c == '+'
    ||| c == '*'
    ||| c == '?'
    ||| c == '('
    ||| c == ')'
    ||| c == '|'
    ||| c == '['
    ||| c == ']'
    ||| c == '{'
    ||| c == '}'
    ||| c == '^'
    ||| c == '$'
    ||| c == '#'
    ||| c == '&'
    ||| c == '-'
    ||| c == '~'
}

/// `s` with every reserved character preceded by a backslash, so that a
/// pattern containing it matches `s` literally.
pub open spec fn escape_chars(s: Seq<char>) -> Seq<char>
    decreases s.len(),
{
    if s.len() == 0 {
        Seq::empty()
    } else {
        escape_chars(s.drop_last()) + if spec_is_meta(s.last()) {
            seq!['\\', s.last()]
        } else {
            seq![s.last()]
        }
    }
}

/// The pattern compiled for exact use of a key: the key, escaped, between
/// word-boundary assertions.
pub open spec fn exact_pattern(k: Seq<char>) -> Seq<char> {
    seq!['\\', 'b'] + escape_chars(k) + seq!['\\', 'b']
}

/// The pattern text that follows the escaped prefix in a dynamic matcher:
/// a literal `.${`, one or more characters other than `}`, and `}`.
pub open spec fn dyn_suffix() -> Seq<char> {
    seq!['\\', '.', '\\', '$', '\\', '{', '[', '^', '}', ']', '+', '\\', '}']
}

/// The pattern compiled for dynamic use of a prefix: the prefix, escaped,
/// followed by `.${...}` with non-empty content.
pub open spec fn dynamic_pattern(p: Seq<char>) -> Seq<char> {
    escape_chars(p) + dyn_suffix()
}

fn is_meta_character(c: char) -> (r: bool)
    ensures
        r == spec_is_meta(c),
{
    c == '\\' || c == '.' || c == '+' || c == '*' || c == '?' || c == '(' || c == ')' || c == '|'
        || c == '[' || c == ']' || c == '{' || c == '}' || c == '^' || c == '$' || c == '#'
        || c == '&' || c == '-' || c == '~'
}

/// Appends `s` to `out` with every reserved character escaped.
fn push_escaped(s: &str, out: &mut Vec<char>)
    ensures
        final(out)@ == old(out)@ + escape_chars(s@),
{
    let n = s.unicode_len();
    let mut i: usize = 0;
    while i < n
        invariant
            i <= n,
            n == s@.len(),
            out@ == old(out)@ + escape_chars(s@.subrange(0, i as int)),
        decreases n - i,
    {
        let c = s.get_char(i);
        if is_meta_character(c) {
            out.push('\\');
        }
        out.push(c);
        proof {
            assert(s@.subrange(0, i + 1 as int).drop_last() =~= s@.subrange(0, i as int));
            assert(s@.subrange(0, i + 1 as int).last() == c);
        }
        i = i + 1;
    }
    proof {
        assert(s@.subrange(0, n as int) =~= s@);
    }
}

/// A matcher for exact, word-bounded use of one catalog key.
pub struct ExactMatcher {
    key: String,
    re: CompiledRegex,
}

impl ExactMatcher {
    /// The key this matcher detects.
    pub closed spec fn key_view(&self) -> Seq<char> {
        self.key@
    }

    /// The matcher's regex was compiled from the key's exact pattern.
    pub closed spec fn wf(&self) -> bool {
        self.re.pattern_view() == exact_pattern(self.key@)
    }

    /// Builds the word-bounded pattern for `key` and compiles it. Returns
    /// `None` exactly when the regex engine rejects the pattern.
    pub fn compile(key: &String) -> (r: Option<ExactMatcher>)
        ensures
            r is Some <==> regex_compiles(exact_pattern(key@)),
            r matches Some(m) ==> m.wf() && m.key_view() == key@,
    {
        let mut pattern: Vec<char> = Vec::new();
        pattern.push('\\');
        pattern.push('b');
        push_escaped(key.as_str(), &mut pattern);
        pattern.push('\\');
        pattern.push('b');
        proof {
            assert(pattern@ =~= exact_pattern(key@));
        }
        match CompiledRegex::compile(pattern) {
            Some(re) => Some(ExactMatcher { key: key.clone(), re }),
            None => None,
        }
    }

    /// Whether `text` uses the key exactly, per the compiled pattern.
    pub fn is_match(&self, text: &str) -> (r: bool)
        requires
            self.wf(),
        ensures
            r == regex_matches(exact_pattern(self.key_view()), text@),
    {
        self.re.is_match(text)
    }

    /// The key this matcher was compiled for.
    pub fn key(&self) -> (r: &String)
        ensures
            r@ == self.key_view(),
    {
        &self.key
    }
}

/// A matcher for dynamic construction of any key under one prefix.
pub struct DynamicMatcher {
    prefix: String,
    re: CompiledRegex,
}

impl DynamicMatcher {
    /// The prefix this matcher detects dynamic use of.
    pub closed spec fn prefix_view(&self) -> Seq<char> {
        self.prefix@
    }

    /// The matcher's regex was compiled from the prefix's dynamic pattern.
    pub closed spec fn wf(&self) -> bool {
        self.re.pattern_view() == dynamic_pattern(self.prefix@)
    }

    /// Builds the `prefix.${...}` pattern for `prefix` and compiles it.
    /// Returns `None` exactly when the regex engine rejects the pattern.
    pub fn compile(prefix: &String) -> (r: Option<DynamicMatcher>)
        ensures
            r is Some <==> regex_compiles(dynamic_pattern(prefix@)),
            r matches Some(m) ==> m.wf() && m.prefix_view() == prefix@,
    {
        let mut pattern: Vec<char> = Vec::new();
        push_escaped(prefix.as_str(), &mut pattern);
        pattern.push('\\');
        pattern.push('.');
        pattern.push('\\');
        pattern.push('$');
        pattern.push('\\');
        pattern.push('{');
        pattern.push('[');
        pattern.push('^');
        pattern.push('}');
        pattern.push(']');
        pattern.push('+');
        pattern.push('\\');
        pattern.push('}');
        proof {
            assert(pattern@ =~= dynamic_pattern(prefix@));
        }
        match CompiledRegex::compile(pattern) {
            Some(re) => Some(DynamicMatcher { prefix: prefix.clone(), re }),
            None => None,
        }
    }

    /// Whether `text` constructs a key under the prefix dynamically, per the
    /// compiled pattern.
    pub fn is_match(&self, text: &str) -> (r: bool)
        requires
            self.wf(),
        ensures
            r == regex_matches(dynamic_pattern(self.prefix_view()), text@),
    {
        self.re.is_match(text)
    }

    /// The prefix this matcher was compiled for.
    pub fn prefix(&self) -> (r: &String)
        ensures
            r@ == self.prefix_view(),
    {
        &self.prefix
    }
}

} // verus!
