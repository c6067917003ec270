use crate::row::chars_of;
use vstd::prelude::*;

verus! {

/// Language of a buffer, as told by its file name.
#[derive(Clone, Copy, Debug, PartialEq, Eq, Structural)]
pub enum Language {
    Plain,
    C,
    Rust,
    JavaScript,
    Go,
    Cpp,
}

/// How a tab key indents.
#[derive(Clone, Copy, Debug, PartialEq, Eq, Structural)]
pub enum Indent {
    /// A literal tab character.
    AsIs,
    /// This many spaces.
    Fixed(usize),
}

pub open spec fn ends_with(s: Seq<char>, suffix: Seq<char>) -> bool {
    suffix.len() <= s.len() && s.skip(s.len() - suffix.len()) == suffix
}

/// Language that a file name tells, by its extension.
pub open spec fn detected(name: Seq<char>) -> Language {
    if ends_with(name, seq!['.', 'r', 's']) {
        Language::Rust
    } else if ends_with(name, seq!['.', 'c']) || ends_with(name, seq!['.', 'h']) {
        Language::C
    } else if ends_with(name, seq!['.', 'j', 's']) {
        Language::JavaScript
    } else if ends_with(name, seq!['.', 'g', 'o']) {
        Language::Go
    } else if ends_with(name, seq!['.', 'c', 'p', 'p']) || ends_with(name, seq!['.', 'h', 'p', 'p'])
        || ends_with(name, seq!['.', 'c', 'c']) {
        Language::Cpp
    } else {
        Language::Plain
    }
}

pub open spec fn indent_of(lang: Language) -> Indent {
    match lang {
        Language::Plain => Indent::AsIs,
        Language::C => Indent::Fixed(4),
        Language::Rust => Indent::Fixed(4),
        Language::JavaScript => Indent::Fixed(2),
        Language::Go => Indent::AsIs,
        Language::Cpp => Indent::Fixed(4),
    }
}

fn has_suffix(s: &Vec<char>, suffix: &Vec<char>) -> (r: bool)
    ensures
        r == ends_with(s@, suffix@),
{
    if suffix.len() > s.len() {
        return false;
    }
    let n = s.len();
    let off = n - suffix.len();
    let mut i: usize = 0;
    while i < suffix.len()
        invariant
            n == s@.len(),
            off + suffix@.len() == n,
            i <= suffix@.len(),
            forall|j: int| 0 <= j < i ==> s@[off + j] == suffix@[j],
        decreases suffix@.len() - i,
    {
        if s[off + i] != suffix[i] {
            assert(s@.skip(off as int)[i as int] != suffix@[i as int]);
            return false;
        }
        i += 1;
    }
    assert(s@.skip(off as int) =~= suffix@);
    true
}

impl Language {
    /// Detects the language from a file name.
    pub fn detect(name: &str) -> (r: Language)
        ensures
            r == detected(name@),
    {
        let s = chars_of(name);
        if has_suffix(&s, &vec!['.', 'r', 's']) {
            Language::Rust
        } else if has_suffix(&s, &vec!['.', 'c']) || has_suffix(&s, &vec!['.', 'h']) {
            Language::C
        } else if has_suffix(&s, &vec!['.', 'j', 's']) {
            Language::JavaScript
        } else if has_suffix(&s, &vec!['.', 'g', 'o']) {
            Language::Go
        } else if has_suffix(&s, &vec!['.', 'c', 'p', 'p']) || has_suffix(&s, &vec!['.', 'h', 'p', 'p'])
            || has_suffix(&s, &vec!['.', 'c', 'c']) {
            Language::Cpp
        } else {
            Language::Plain
        }
    }

    pub fn indent(self) -> (r: Indent)
        ensures
            r == indent_of(self),
    {
        match self {
            Language::Plain => Indent::AsIs,
            Language::C => Indent::Fixed(4),
            Language::Rust => Indent::Fixed(4),
            Language::JavaScript => Indent::Fixed(2),
            Language::Go => Indent::AsIs,
            Language::Cpp => Indent::Fixed(4),
        }
    }
}

} // verus!
