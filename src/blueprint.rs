//! Locating a module's rule block in a build-definition document.
use vstd::prelude::*;
use vstd::string::StringExecFns;

verus! {

broadcast use vstd::seq::group_seq_axioms;

/// A rule block: an identifier, `{`, and everything up to the first `}` that
/// starts a line.
pub const BLOCK_PATTERN: &'static str = "(?ms)[ \\t]*[_a-zA-Z0-9]+\\s*\\{.*?^\\}";

/// What precedes the quoted module name on a block's `name:` line.
pub const NAME_LINE_PREFIX: &'static str = "(?m)^\\s*name:\\s*\"";

/// The texts of the successive non-overlapping matches of `pattern` in
/// `text`, or `None` where `pattern` is not a valid expression.
pub uninterp spec fn regex_matches(pattern: Seq<char>, text: Seq<char>) -> Option<Seq<Seq<char>>>;

/// Whether `pattern` matches somewhere in `text`, or `None` where `pattern`
/// is not a valid expression.
pub uninterp spec fn regex_found(pattern: Seq<char>, text: Seq<char>) -> Option<bool>;

/// The characters that have a meaning in a regular expression.
pub open spec fn is_meta_character(c: char) -> bool {
    c == '\\' || c == '.' || c == '+' || c == '*' || c == '?' || c == '(' || c == ')' || c == '|'
        || c == '[' || c == ']' || c == '{' || c == '}' || c == '^' || c == '$' || c == '#' || c == '&'
        || c == '-' || c == '~'
}

/// `text` with a backslash before every metacharacter.
pub open spec fn regex_escaped(text: Seq<char>) -> Seq<char>
    decreases text.len(),
{
    if text.len() == 0 {
        seq![]
    } else {
        let c = text.last();
        regex_escaped(text.drop_last()) + if is_meta_character(c) {
            seq!['\\', c]
        } else {
            seq![c]
        }
    }
}

pub open spec fn texts_of(v: Seq<&str>) -> Seq<Seq<char>> {
    v.map_values(|s: &str| s@)
}

/// Relies on regex::Regex::new and Regex::find_iter: the matched texts, in
/// order; the compile error rendered by its Display.
#[verifier::external_body]
fn find_all<'h>(pattern: &str, haystack: &'h str) -> (r: Result<Vec<&'h str>, String>)
    ensures
        match r {
            Ok(v) => regex_matches(pattern@, haystack@) == Some(texts_of(v@)),
            Err(_) => regex_matches(pattern@, haystack@) is None,
        },
{
    match regex::Regex::new(pattern) {
        Ok(re) => Ok(re.find_iter(haystack).map(|m| m.as_str()).collect()),
        Err(e) => Err(e.to_string()),
    }
}

/// Relies on regex::Regex::new and Regex::is_match; the compile error
/// rendered by its Display.
#[verifier::external_body]
fn is_match(pattern: &str, text: &str) -> (r: Result<bool, String>)
    ensures
        match r {
            Ok(b) => regex_found(pattern@, text@) == Some(b),
            Err(_) => regex_found(pattern@, text@) is None,
        },
{
    match regex::Regex::new(pattern) {
        Ok(re) => Ok(re.is_match(text)),
        Err(e) => Err(e.to_string()),
    }
}

/// Relies on regex::escape: each character of the text, with a backslash
/// before each metacharacter.
#[verifier::external_body]
fn escape(text: &str) -> (r: String)
    ensures
        r@ == regex_escaped(text@),
{
    regex::escape(text)
}

/// The expression for a `name: "<name>"` line, the name taken literally.
pub open spec fn name_pattern(name: Seq<char>) -> Seq<char> {
    NAME_LINE_PREFIX@ + regex_escaped(name) + "\""@
}

/// The first of `blocks` in which `pattern` matches; `Err` where the
/// pattern is invalid.
pub open spec fn first_hit(blocks: Seq<Seq<char>>, pattern: Seq<char>) -> Result<Option<int>, ()>
    decreases blocks.len(),
{
    if blocks.len() == 0 {
        Ok(None)
    } else {
        match regex_found(pattern, blocks[0]) {
            None => Err(()),
            Some(true) => Ok(Some(0)),
            Some(false) => match first_hit(blocks.drop_first(), pattern) {
                Err(()) => Err(()),
                Ok(None) => Ok(None),
                Ok(Some(k)) => Ok(Some(k + 1)),
            },
        }
    }
}

pub open spec fn shifted(r: Result<Option<int>, ()>, by: int) -> Result<Option<int>, ()> {
    match r {
        Ok(Some(k)) => Ok(Some(k + by)),
        _ => r,
    }
}

/// Finds the first rule block of `haystack` that has a line
/// `name: "<name>"`, and returns its text; `None` where no block has.
pub fn find_module_source<'h>(haystack: &'h str, name: &str) -> (r: Result<Option<&'h str>, String>)
    ensures
        match regex_matches(BLOCK_PATTERN@, haystack@) {
            None => r is Err,
            Some(blocks) => match first_hit(blocks, name_pattern(name@)) {
                Err(()) => r is Err,
                Ok(None) => r == Ok::<Option<&'h str>, String>(None),
                Ok(Some(k)) => r is Ok && r->Ok_0 is Some && r->Ok_0->0@ == blocks[k],
            },
        },
{
    let blocks = find_all(BLOCK_PATTERN, haystack)?;
    let mut pattern = String::from_str(NAME_LINE_PREFIX);
    let escaped = escape(name);
    pattern.append(escaped.as_str());
    pattern.append("\"");
    let ghost all = texts_of(blocks@);
    let ghost pat = name_pattern(name@);
    assert(pattern@ == pat);
    let mut i: usize = 0;
    assert(all.subrange(0, all.len() as int) =~= all);
    while i < blocks.len()
        invariant
            0 <= i <= blocks@.len(),
            all == texts_of(blocks@),
            pattern@ == pat,
            pat == name_pattern(name@),
            regex_matches(BLOCK_PATTERN@, haystack@) == Some(all),
            first_hit(all, pat) == shifted(first_hit(all.subrange(i as int, all.len() as int), pat), i as int),
        decreases blocks@.len() - i,
    {
        let ghost rest = all.subrange(i as int, all.len() as int);
        assert(rest.drop_first() =~= all.subrange(i + 1, all.len() as int));
        assert(rest[0] == blocks@[i as int]@);
        assert(rest.len() > 0 && rest[0] == all[i as int]);
        assert(all[i as int] == blocks@[i as int]@);
        let hit = match is_match(pattern.as_str(), blocks[i]) {
            Ok(h) => h,
            Err(e) => {
                assert(first_hit(rest, pat) is Err);
                return Err(e);
            },
        };
        if hit {
            assert(first_hit(rest, pat) == Ok::<Option<int>, ()>(Some(0)));
            return Ok(Some(blocks[i]));
        }
        i = i + 1;
    }
    Ok(None)
}

} // verus!
