//! Fuzzy matching of lines against what the user typed: every typed character must occur in
//! the line, in order, with anything in between.

use vstd::prelude::*;

use crate::text::{chars_of, push_char};

verus! {

#[verifier::external_type_specification]
#[verifier::external_body]
pub struct ExRegex(regex::Regex);

/// Whether `regex::Regex::new` accepts `pattern` (with the crate's default limits).
pub uninterp spec fn regex_compiles(pattern: Seq<char>) -> bool;

/// Whether the compiled form of `pattern` finds a match anywhere in `haystack`
/// (`regex::Regex::is_match`).
pub uninterp spec fn regex_matches(pattern: Seq<char>, haystack: Seq<char>) -> bool;

/// The characters that `regex::escape` puts a backslash in front of.
pub open spec fn is_meta_character(c: char) -> bool {
    c == '\\' || c == '.' || c == '+' || c == '*' || c == '?' || c == '(' || c == ')' || c == '|'
        || c == '[' || c == ']' || c == '{' || c == '}' || c == '^' || c == '$' || c == '#' || c
        == '&' || c == '-' || c == '~'
}

/// `text` with a backslash in front of every meta character.
pub open spec fn escaped(text: Seq<char>) -> Seq<char>
    decreases text.len(),
{
    if text.len() == 0 {
        seq![]
    } else {
        let c = text.last();
        escaped(text.drop_last()) + (if is_meta_character(c) {
            seq!['\\', c]
        } else {
            seq![c]
        })
    }
}

/// `regex::escape`: the text with a backslash put in front of each meta character, so that
/// the result matches the text literally. The source of `regex-syntax` writes exactly this
/// (`escape_into` with `is_meta_character`).
#[verifier::external_body]
fn escape(text: &str) -> (r: String)
    ensures
        r@ == escaped(text@),
{
    regex::escape(text)
}

/// A regular expression together with the text it was compiled from.
pub struct CompiledPattern {
    text: String,
    compiled: regex::Regex,
}

impl CompiledPattern {
    /// The text the expression was compiled from.
    pub closed spec fn text(&self) -> Seq<char> {
        self.text@
    }
}

/// `regex::Regex::new`: compiles `pattern`; `None` where the crate refuses it.
#[verifier::external_body]
fn compile(pattern: String) -> (r: Option<CompiledPattern>)
    ensures
        r is Some <==> regex_compiles(pattern@),
        r matches Some(p) ==> p.text() == pattern@,
{
    match regex::Regex::new(&pattern) {
        Ok(compiled) => Some(CompiledPattern { text: pattern, compiled }),
        Err(_) => None,
    }
}

/// `regex::Regex::is_match`: whether the expression matches somewhere in `haystack`.
#[verifier::external_body]
fn is_match(p: &CompiledPattern, haystack: &str) -> (r: bool)
    ensures
        r == regex_matches(p.text(), haystack@),
{
    p.compiled.is_match(haystack)
}

/// The part of the fuzzy pattern for the typed characters `input`: for each of them, "any
/// characters" and then the character itself, escaped.
pub open spec fn fuzzy_steps(input: Seq<char>) -> Seq<char>
    decreases input.len(),
{
    if input.len() == 0 {
        seq![]
    } else {
        fuzzy_steps(input.drop_last()) + seq!['.', '*'] + escaped(seq![input.last()])
    }
}

/// The expression a line is matched against: the pieces of `input` split at every character
/// boundary (an empty piece first and last), each written as `.*` and the escaped piece.
pub open spec fn fuzzy_pattern(input: Seq<char>) -> Seq<char> {
    seq!['.', '*'] + fuzzy_steps(input) + seq!['.', '*']
}

/// The lines the pattern matches, in order.
pub open spec fn matching_lines(lines: Seq<String>, pattern: Seq<char>) -> Seq<Seq<char>>
    decreases lines.len(),
{
    if lines.len() == 0 {
        seq![]
    } else {
        let r = matching_lines(lines.drop_last(), pattern);
        if regex_matches(pattern, lines.last()@) {
            r.push(lines.last()@)
        } else {
            r
        }
    }
}

/// The texts of a list of references to lines.
pub open spec fn line_texts<'a>(v: Seq<&'a String>) -> Seq<Seq<char>> {
    v.map_values(|l: &'a String| l@)
}

/// The texts of a list of lines.
pub open spec fn owned_texts(v: Seq<String>) -> Seq<Seq<char>> {
    v.map_values(|l: String| l@)
}

/// Builds the fuzzy pattern for `input`.
fn fuzzy_regex_string(input: &str) -> (r: String)
    ensures
        r@ == fuzzy_pattern(input@),
{
    let chars = chars_of(input);
    let mut acc = String::new();
    push_char(&mut acc, '.');
    push_char(&mut acc, '*');
    let mut i: usize = 0;
    while i < chars.len()
        invariant
            i <= chars@.len(),
            chars@ == input@,
            acc@ == seq!['.', '*'] + fuzzy_steps(input@.take(i as int)),
        decreases chars@.len() - i,
    {
        let mut piece = String::new();
        push_char(&mut piece, chars[i]);
        let esc = escape(piece.as_str());
        push_char(&mut acc, '.');
        push_char(&mut acc, '*');
        acc.append(esc.as_str());
        proof {
            let t = input@.take(i + 1);
            assert(t.drop_last() =~= input@.take(i as int));
            assert(t.last() == chars@[i as int]);
            assert(piece@ =~= seq![chars@[i as int]]);
            assert(acc@ =~= seq!['.', '*'] + fuzzy_steps(t));
        }
        i = i + 1;
    }
    push_char(&mut acc, '.');
    push_char(&mut acc, '*');
    assert(input@.take(chars@.len() as int) =~= input@);
    assert(acc@ =~= fuzzy_pattern(input@));
    acc
}

/// The lines of a fuzzy search and those that match what was typed so far.
pub struct Matcher<'a> {
    pub lines: &'a Vec<String>,
    pub matches: Vec<&'a String>,
    pub input: String,
}

impl<'a> Matcher<'a> {
    /// A matcher over `lines` with nothing typed yet: every line matches.
    pub fn new(lines: &'a Vec<String>) -> (r: Matcher<'a>)
        ensures
            r.lines == lines,
            r.input@ == Seq::<char>::empty(),
            line_texts(r.matches@) == owned_texts(lines@),
    {
        let mut matches: Vec<&'a String> = Vec::new();
        let mut i: usize = 0;
        while i < lines.len()
            invariant
                i <= lines@.len(),
                line_texts(matches@) == owned_texts(lines@.take(i as int)),
            decreases lines@.len() - i,
        {
            let ghost before = matches@;
            matches.push(&lines[i]);
            proof {
                assert(matches@.drop_last() =~= before);
                assert(lines@.take(i + 1).drop_last() =~= lines@.take(i as int));
                assert(line_texts(matches@) =~= line_texts(before).push(lines@[i as int]@));
                assert(owned_texts(lines@.take(i + 1)) =~= owned_texts(lines@.take(i as int)).push(
                    lines@[i as int]@,
                ));
            }
            i = i + 1;
        }
        assert(lines@.take(lines@.len() as int) =~= lines@);
        Matcher { lines, input: String::new(), matches }
    }

    /// Replaces what was typed and keeps the lines that match it.
    pub fn input(&mut self, input: String)
        requires
            regex_compiles(fuzzy_pattern(input@)),
        ensures
            final(self).lines == old(self).lines,
            final(self).input@ == input@,
            line_texts(final(self).matches@) == matching_lines(
                old(self).lines@,
                fuzzy_pattern(input@),
            ),
    {
        self.input = input;
        self.update_matches();
    }

    /// Replaces what was typed and keeps the lines that match it, where the pattern built from
    /// it compiles; returns whether it did. Where it does not, nothing changes.
    pub fn try_input(&mut self, input: String) -> (r: bool)
        ensures
            r == regex_compiles(fuzzy_pattern(input@)),
            final(self).lines == old(self).lines,
            r ==> final(self).input@ == input@ && line_texts(final(self).matches@)
                == matching_lines(old(self).lines@, fuzzy_pattern(input@)),
            !r ==> *final(self) == *old(self),
    {
        let pattern = fuzzy_regex_string(input.as_str());
        match compile(pattern) {
            Some(_) => {
                self.input(input);
                true
            },
            None => false,
        }
    }

    /// Keeps the lines that match the current input.
    fn update_matches(&mut self)
        requires
            regex_compiles(fuzzy_pattern(old(self).input@)),
        ensures
            final(self).lines == old(self).lines,
            final(self).input == old(self).input,
            line_texts(final(self).matches@) == matching_lines(
                old(self).lines@,
                fuzzy_pattern(old(self).input@),
            ),
    {
        self.matches.clear();
        let regex_string = fuzzy_regex_string(self.input.as_str());
        let ghost pattern = regex_string@;
        let re = match compile(regex_string) {
            Some(re) => re,
            None => {
                return;
            },
        };
        let lines = self.lines;
        let mut i: usize = 0;
        while i < lines.len()
            invariant
                i <= lines@.len(),
                lines == old(self).lines,
                self.lines == old(self).lines,
                self.input == old(self).input,
                re.text() == pattern,
                pattern == fuzzy_pattern(old(self).input@),
                line_texts(self.matches@) == matching_lines(lines@.take(i as int), pattern),
            decreases lines@.len() - i,
        {
            let ghost before = self.matches@;
            let line = &lines[i];
            proof {
                assert(lines@.take(i + 1).drop_last() =~= lines@.take(i as int));
                assert(lines@.take(i + 1).last() == lines@[i as int]);
            }
            if is_match(&re, line.as_str()) {
                self.matches.push(line);
                assert(self.matches@.drop_last() =~= before);
                assert(line_texts(self.matches@) =~= line_texts(before).push(line@));
            }
            i = i + 1;
        }
        assert(lines@.take(lines@.len() as int) =~= lines@);
    }
}

} // verus!
