//! Interpreting the user's answers to interactive prompts.
use vstd::prelude::*;
use crate::text::str_eq;

verus! {

/// The lowercase form of a string, as `str::to_lowercase` gives it.
pub uninterp spec fn lower_of(s: Seq<char>) -> Seq<char>;

/// Whether a character has the Unicode White_Space property, the test that
/// `char::is_whitespace` and `str::trim` use.
pub open spec fn is_white_space(c: char) -> bool {
    let u = c as u32;
    (0x9 <= u && u <= 0xD) || u == 0x20 || u == 0x85 || u == 0xA0 || u == 0x1680
        || (0x2000 <= u && u <= 0x200A) || u == 0x2028 || u == 0x2029 || u == 0x202F
        || u == 0x205F || u == 0x3000
}

/// A sequence without its leading white space.
pub open spec fn trim_start(s: Seq<char>) -> Seq<char>
    decreases s.len(),
{
    if s.len() > 0 && is_white_space(s[0]) {
        trim_start(s.drop_first())
    } else {
        s
    }
}

/// A sequence without its trailing white space.
pub open spec fn trim_end(s: Seq<char>) -> Seq<char>
    decreases s.len(),
{
    if s.len() > 0 && is_white_space(s.last()) {
        trim_end(s.drop_last())
    } else {
        s
    }
}

/// A sequence without leading and trailing white space, as `str::trim`
/// gives it.
pub open spec fn trim_of(s: Seq<char>) -> Seq<char> {
    trim_end(trim_start(s))
}

/// Relies on `str::to_lowercase`: the result depends on the characters alone.
#[verifier::external_body]
fn lowercase(s: &str) -> (r: String)
    ensures
        r@ == lower_of(s@),
{
    s.to_lowercase()
}

proof fn lemma_trim_start_from(s: Seq<char>, i: int)
    requires
        0 <= i <= s.len(),
        forall|k: int| 0 <= k < i ==> is_white_space(s[k]),
        i == s.len() || !is_white_space(s[i]),
    ensures
        trim_start(s) == s.subrange(i, s.len() as int),
    decreases i,
{
    if i > 0 {
        assert forall|k: int| 0 <= k < i - 1 implies is_white_space(s.drop_first()[k]) by {
            assert(s.drop_first()[k] == s[k + 1]);
        };
        if i < s.len() {
            assert(s.drop_first()[i - 1] == s[i]);
        }
        lemma_trim_start_from(s.drop_first(), i - 1);
        assert(s.drop_first().subrange(i - 1, s.len() - 1) =~= s.subrange(i, s.len() as int));
    } else {
        assert(s.subrange(0, s.len() as int) =~= s);
    }
}

proof fn lemma_trim_end_to(s: Seq<char>, j: int)
    requires
        0 <= j <= s.len(),
        forall|k: int| j <= k < s.len() ==> is_white_space(s[k]),
        j == 0 || !is_white_space(s[j - 1]),
    ensures
        trim_end(s) == s.subrange(0, j),
    decreases s.len() - j,
{
    if j < s.len() {
        assert forall|k: int| j <= k < s.len() - 1 implies is_white_space(s.drop_last()[k]) by {
            assert(s.drop_last()[k] == s[k]);
        };
        if j > 0 {
            assert(s.drop_last()[j - 1] == s[j - 1]);
        }
        lemma_trim_end_to(s.drop_last(), j);
        assert(s.drop_last().subrange(0, j) =~= s.subrange(0, j));
    } else {
        assert(s.subrange(0, j) =~= s);
    }
}

/// Whether a character has the Unicode White_Space property.
fn white_space(c: char) -> (r: bool)
    ensures
        r == is_white_space(c),
{
    let u = c as u32;
    (0x9 <= u && u <= 0xD) || u == 0x20 || u == 0x85 || u == 0xA0 || u == 0x1680
        || (0x2000 <= u && u <= 0x200A) || u == 0x2028 || u == 0x2029 || u == 0x202F
        || u == 0x205F || u == 0x3000
}

/// A string without leading and trailing white space.
pub fn trimmed(s: &str) -> (r: String)
    ensures
        r@ == trim_of(s@),
{
    let n = s.unicode_len();
    let mut i: usize = 0;
    while i < n && white_space(s.get_char(i))
        invariant
            n == s@.len(),
            i <= n,
            forall|k: int| 0 <= k < i ==> is_white_space(s@[k]),
        decreases n - i,
    {
        i = i + 1;
    }
    proof {
        lemma_trim_start_from(s@, i as int);
    }
    let mut j: usize = n;
    while j > i && white_space(s.get_char(j - 1))
        invariant
            n == s@.len(),
            i <= j <= n,
            forall|k: int| j <= k < n ==> is_white_space(s@[k]),
        decreases j,
    {
        j = j - 1;
    }
    proof {
        let t = s@.subrange(i as int, n as int);
        assert forall|k: int| j - i <= k < t.len() implies is_white_space(t[k]) by {
            assert(t[k] == s@[k + i]);
        };
        if j > i {
            assert(t[j - i - 1] == s@[j - 1]);
        }
        lemma_trim_end_to(t, j - i);
        assert(t.subrange(0, j - i) =~= s@.subrange(i as int, j as int));
    }
    s.substring_char(i, j).to_owned()
}

/// The user asked to quit at a prompt.
pub enum PromptError {
    Aborted,
}

/// The words that abandon a prompt.
pub open spec fn is_quit_word(w: Seq<char>) -> bool {
    w == "exit"@ || w == "quit"@
}

/// Whether a lowercased, trimmed answer abandons the prompt.
pub fn is_quit(word: &str) -> (r: bool)
    ensures
        r == is_quit_word(word@),
{
    str_eq(word, "exit") || str_eq(word, "quit")
}

/// The meaning of a lowercased yes/no answer: `Some(true)` for "y" or
/// "yes", `Some(false)` for "n" or "no", `None` for anything else.
pub fn yes_no_answer(lowered: &str) -> (r: Option<bool>)
    ensures
        r == (if lowered@ == "y"@ || lowered@ == "yes"@ {
            Some(true)
        } else if lowered@ == "n"@ || lowered@ == "no"@ {
            Some(false)
        } else {
            None::<bool>
        }),
{
    if str_eq(lowered, "y") || str_eq(lowered, "yes") {
        Some(true)
    } else if str_eq(lowered, "n") || str_eq(lowered, "no") {
        Some(false)
    } else {
        None
    }
}

/// The meaning of a line typed at a yes/no prompt, compared without regard
/// to case; `None` asks for the question again.
pub fn parse_yes_no(line: &str) -> (r: Option<bool>)
    ensures
        r == (if lower_of(line@) == "y"@ || lower_of(line@) == "yes"@ {
            Some(true)
        } else if lower_of(line@) == "n"@ || lower_of(line@) == "no"@ {
            Some(false)
        } else {
            None::<bool>
        }),
{
    let lowered = lowercase(line);
    yes_no_answer(lowered.as_str())
}

/// The outcome of a line read at a prompt: no line gives no answer; "exit"
/// or "quit", in any case and with surrounding whitespace, abandons the
/// prompt; any other line is the answer, trimmed.
pub fn prompt(line: Option<String>) -> (r: Result<Option<String>, PromptError>)
    ensures
        match line {
            None => r == Ok::<Option<String>, PromptError>(None),
            Some(l) => if is_quit_word(trim_of(lower_of(l@))) {
                r is Err
            } else {
                r matches Ok(Some(t)) && t@ == trim_of(l@)
            },
        },
{
    match line {
        None => Ok(None),
        Some(l) => {
            let lowered = lowercase(l.as_str());
            let word = trimmed(lowered.as_str());
            if is_quit(word.as_str()) {
                Err(PromptError::Aborted)
            } else {
                Ok(Some(trimmed(l.as_str())))
            }
        },
    }
}

} // verus!
