//! Turning the failure of a rendering into an error that says where to
//! look: a line of the template, a variable with suggestions, or general
//! advice.

use vstd::prelude::*;
use vstd::string::StringExecFns;
use crate::error::CliError;
use crate::suggestions::{names_view, suggest, suggestion_text};
use crate::text::{
    chars_of, contains_text, decimal, find, find_from, find_text, lemma_find_from, parse_index,
    push_decimal, read_index, slice_of, split_on, split_text, string_of,
};

verus! {

/// Whether a character is numeric, as Unicode defines it.
pub uninterp spec fn is_numeric(c: char) -> bool;

/// Whether a character is white space, as Unicode defines it: tab to
/// carriage return, the space, the next-line sign, the spaces that do
/// not break, the ogham space, the spaces from en quad to hair space, the
/// line and paragraph separators, the medium mathematical space and the
/// ideographic space.
pub open spec fn is_whitespace(c: char) -> bool {
    let n = c as int;
    (0x09 <= n <= 0x0D) || n == 0x20 || n == 0x85 || n == 0xA0 || n == 0x1680 || (0x2000 <= n
        <= 0x200A) || n == 0x2028 || n == 0x2029 || n == 0x202F || n == 0x205F || n == 0x3000
}

/// `char::is_numeric`: whether `c` is in one of Unicode's number
/// categories.
#[verifier::external_body]
pub(crate) fn char_is_numeric(c: char) -> (r: bool)
    ensures
        r == is_numeric(c),
{
    c.is_numeric()
}

/// Whether `c` is white space.
pub fn char_is_whitespace(c: char) -> (r: bool)
    ensures
        r == is_whitespace(c),
{
    let n: u32 = c as u32;
    (0x09 <= n && n <= 0x0D) || n == 0x20 || n == 0x85 || n == 0xA0 || n == 0x1680 || (0x2000 <= n
        && n <= 0x200A) || n == 0x2028 || n == 0x2029 || n == 0x202F || n == 0x205F || n == 0x3000
}

/// The first position at or after `from` of a character that is not
/// numeric.
pub open spec fn numeric_end(s: Seq<char>, from: int) -> Option<int>
    decreases s.len() - from,
{
    if from < 0 || from >= s.len() {
        None
    } else if !is_numeric(s[from]) {
        Some(from)
    } else {
        numeric_end(s, from + 1)
    }
}

/// The first position at or after `from` of white space or a colon.
pub open spec fn word_end(s: Seq<char>, from: int) -> Option<int>
    decreases s.len() - from,
{
    if from < 0 || from >= s.len() {
        None
    } else if is_whitespace(s[from]) || s[from] == ':' {
        Some(from)
    } else {
        word_end(s, from + 1)
    }
}

/// The line number that a message gives: the number that stands directly
/// after the first `line ` of the message, up to what is no number or to
/// the end of the message. It must fit the machine's word.
pub open spec fn line_number_in(message: Seq<char>) -> Option<nat> {
    match find(message, "line "@) {
        None => None,
        Some(at) => {
            let start = at + "line "@.len();
            let end = match numeric_end(message, start) {
                Some(end) => end,
                None => message.len() as int,
            };
            match parse_index(message.subrange(start, end)) {
                Some(n) => if n <= usize::MAX {
                    Some(n)
                } else {
                    None
                },
                None => None,
            }
        },
    }
}

/// What stands between the first two double quotes of a message.
pub open spec fn quoted_in(message: Seq<char>) -> Option<Seq<char>> {
    match find(message, "\""@) {
        None => None,
        Some(open) => match find_from(message, "\""@, open + 1) {
            None => None,
            Some(close) => Some(message.subrange(open + 1, close)),
        },
    }
}

/// The word that follows the first `word` of a message, up to white space
/// or a colon, one of which must follow.
pub open spec fn word_after(message: Seq<char>, word: Seq<char>) -> Option<Seq<char>> {
    match find(message, word) {
        None => None,
        Some(at) => {
            let start = at + word.len();
            match word_end(message, start) {
                None => None,
                Some(end) => Some(message.subrange(start, end)),
            }
        },
    }
}

/// The variable that a message names: what it quotes, else the word after
/// `variable `, else the word after `Variable `.
pub open spec fn variable_name_in(message: Seq<char>) -> Option<Seq<char>> {
    match quoted_in(message) {
        Some(name) => Some(name),
        None => match word_after(message, "variable "@) {
            Some(name) => Some(name),
            None => word_after(message, "Variable "@),
        },
    }
}

/// The lines of a text: the pieces between its line feeds, each without a
/// carriage return at its end, and without the empty piece after a line
/// feed that ends the text.
pub open spec fn lines_of(text: Seq<char>) -> Seq<Seq<char>> {
    let pieces = split_on(text, "\n"@);
    let kept = if pieces.len() > 0 && pieces.last().len() == 0 {
        pieces.drop_last()
    } else {
        pieces
    };
    Seq::new(kept.len(), |i: int| without_return(kept[i]))
}

/// The line without the carriage return at its end, if it has one.
pub open spec fn without_return(line: Seq<char>) -> Seq<char> {
    if line.len() > 0 && line.last() == '\r' {
        line.drop_last()
    } else {
        line
    }
}

/// Line `number` of the template, counted from one; zero counts as one.
/// A number beyond the last line gives a placeholder.
pub open spec fn template_line(template: Seq<char>, number: nat) -> Seq<char> {
    let index = if number == 0 {
        0
    } else {
        number - 1
    };
    if index < lines_of(template).len() {
        lines_of(template)[index]
    } else {
        "<line not found>"@
    }
}

/// The position of the first character at or after `from` that is not
/// numeric.
pub fn find_numeric_end(s: &Vec<char>, from: usize) -> (r: Option<usize>)
    ensures
        match r {
            Some(end) => numeric_end(s@, from as int) == Some(end as int) && from <= end < s.len(),
            None => numeric_end(s@, from as int) is None,
        },
{
    let mut i: usize = from;
    while i < s.len()
        invariant
            from <= i,
            numeric_end(s@, from as int) == numeric_end(s@, i as int),
        decreases s.len() - i,
    {
        if !char_is_numeric(s[i]) {
            return Some(i);
        }
        i += 1;
    }
    None
}

/// The position of the first white space or colon at or after `from`.
pub fn find_word_end(s: &Vec<char>, from: usize) -> (r: Option<usize>)
    ensures
        match r {
            Some(end) => word_end(s@, from as int) == Some(end as int) && from <= end < s.len(),
            None => word_end(s@, from as int) is None,
        },
{
    let mut i: usize = from;
    while i < s.len()
        invariant
            from <= i,
            word_end(s@, from as int) == word_end(s@, i as int),
        decreases s.len() - i,
    {
        if char_is_whitespace(s[i]) || s[i] == ':' {
            return Some(i);
        }
        i += 1;
    }
    None
}

/// The line number that a message gives.
pub fn extract_line_number(message: &str) -> (r: Option<usize>)
    ensures
        match r {
            Some(n) => line_number_in(message@) == Some(n as nat),
            None => line_number_in(message@) is None,
        },
{
    let chars = chars_of(message);
    let word = chars_of("line ");
    proof {
        reveal_strlit("line ");
    }
    match find_text(&chars, &word, 0) {
        None => None,
        Some(at) => {
            proof {
                lemma_find_from(chars@, word@, 0);
            }
            let start = at + 5;
            let end = match find_numeric_end(&chars, start) {
                Some(end) => end,
                None => chars.len(),
            };
            read_index(&chars, start, end)
        },
    }
}

/// The word that follows the first `word` of a message.
pub fn extract_word_after(message: &Vec<char>, word: &str) -> (r: Option<String>)
    ensures
        match r {
            Some(name) => word_after(message@, word@) == Some(name@),
            None => word_after(message@, word@) is None,
        },
{
    let w = chars_of(word);
    match find_text(message, &w, 0) {
        None => None,
        Some(at) => {
            proof {
                lemma_find_from(message@, w@, 0);
                assert(at + w@.len() <= message@.len() == message.len());
            }
            let start = at + w.len();
            match find_word_end(message, start) {
                None => None,
                Some(end) => {
                    let name = slice_of(message, start, end);
                    Some(string_of(&name))
                },
            }
        },
    }
}

/// The variable that a message names.
pub fn extract_variable_name(message: &str) -> (r: Option<String>)
    ensures
        match r {
            Some(name) => variable_name_in(message@) == Some(name@),
            None => variable_name_in(message@) is None,
        },
{
    let chars = chars_of(message);
    let quote = chars_of("\"");
    proof {
        reveal_strlit("\"");
    }
    if let Some(open) = find_text(&chars, &quote, 0) {
        proof {
            lemma_find_from(chars@, quote@, 0);
        }
        if let Some(close) = find_text(&chars, &quote, open + 1) {
            proof {
                lemma_find_from(chars@, quote@, open + 1);
            }
            let name = slice_of(&chars, open + 1, close);
            return Some(string_of(&name));
        }
    }
    if let Some(name) = extract_word_after(&chars, "variable ") {
        return Some(name);
    }
    extract_word_after(&chars, "Variable ")
}

/// Line `number` of the template.
pub fn get_template_line(template: &str, number: usize) -> (r: String)
    ensures
        r@ == template_line(template@, number as nat),
{
    let chars = chars_of(template);
    let feed = chars_of("\n");
    proof {
        reveal_strlit("\n");
    }
    let pieces = split_text(&chars, &feed);
    let count: usize = if pieces[pieces.len() - 1].len() == 0 {
        pieces.len() - 1
    } else {
        pieces.len()
    };
    let index: usize = if number == 0 {
        0
    } else {
        number - 1
    };
    if index < count {
        let piece = &pieces[index];
        let n = piece.len();
        let line = if n > 0 && piece[n - 1] == '\r' {
            slice_of(piece, 0, n - 1)
        } else {
            slice_of(piece, 0, n)
        };
        proof {
            assert(line@ =~= without_return(piece@));
        }
        string_of(&line)
    } else {
        String::from_str("<line not found>")
    }
}

/// The text of a syntax error: the message, the usual mistakes, and the
/// line of the template that the message points at.
pub open spec fn syntax_message(message: Seq<char>, line: nat, text: Seq<char>) -> Seq<char> {
    message
        + "\n\nCommon template syntax issues:\n- Unclosed braces: {{ variable (missing closing }})\n- Invalid helper syntax: {{helper param1 param2}}\n- Mismatched block helpers: {{#if}} without {{/if}}\n\nTemplate line "@
        + decimal(line) + ":\n"@ + text
}

/// The text of a general error: the message and general advice.
pub open spec fn processing_message(message: Seq<char>) -> Seq<char> {
    "Template processing failed: "@ + message
        + "\n\nTroubleshooting tips:\n- Verify all {{variable}} placeholders have corresponding values\n- Check that nested access paths are correct (e.g., {{resource.name}})\n- Ensure array indices are valid (e.g., {{resources.0.name}})\n- Use the 'list-variables' command to see available variables"@
}

/// Whether a message tells of something that is not there.
pub open spec fn mentions_missing(message: Seq<char>) -> bool {
    contains_text(message, "not found"@) || contains_text(message, "undefined"@)
}

/// Whether `needle` stands somewhere in `hay`.
pub fn contains(hay: &Vec<char>, needle: &str) -> (r: bool)
    ensures
        r == contains_text(hay@, needle@),
{
    let n = chars_of(needle);
    find_text(hay, &n, 0).is_some()
}

/// Whether `error` is the error for a rendering that failed with
/// `message`, given the template and the known names in the order of the
/// store.
///
/// A message that gives a line number makes a syntax error with that line
/// of the template. Else a message that tells of something missing and
/// names a variable makes a variable error with suggestions. Any other
/// message makes a general error.
pub open spec fn is_enhancement(
    error: CliError,
    message: Seq<char>,
    template: Seq<char>,
    names: Seq<Seq<char>>,
) -> bool {
    match error {
        CliError::TemplateSyntaxError { line, message: text } => line_number_in(message) == Some(
            line as nat,
        ) && text@ == syntax_message(message, line as nat, template_line(template, line as nat)),
        CliError::VariableNotFoundError { variable, suggestion } => line_number_in(message)
            is None && mentions_missing(message) && variable_name_in(message) == Some(variable@)
            && suggestion@ == suggestion_text(names, variable@),
        CliError::ProcessingError(text) => line_number_in(message) is None && !(mentions_missing(
            message,
        ) && variable_name_in(message) is Some) && text@ == processing_message(message),
        _ => false,
    }
}

/// The error for a rendering that failed with `message`.
pub fn enhance_template_error(message: &str, template: &str, names: &Vec<String>) -> (r: CliError)
    ensures
        is_enhancement(r, message@, template@, names_view(names@)),
{
    if let Some(line) = extract_line_number(message) {
        let mut text = String::from_str(message);
        text.append(
            "\n\nCommon template syntax issues:\n- Unclosed braces: {{ variable (missing closing }})\n- Invalid helper syntax: {{helper param1 param2}}\n- Mismatched block helpers: {{#if}} without {{/if}}\n\nTemplate line ",
        );
        push_decimal(&mut text, line);
        text.append(":\n");
        text.append(get_template_line(template, line).as_str());
        return CliError::TemplateSyntaxError { line, message: text };
    }
    let chars = chars_of(message);
    if contains(&chars, "not found") || contains(&chars, "undefined") {
        if let Some(variable) = extract_variable_name(message) {
            let suggestion = suggest(names, variable.as_str());
            return CliError::VariableNotFoundError { variable, suggestion };
        }
    }
    let mut text = String::from_str("Template processing failed: ");
    text.append(message);
    text.append(
        "\n\nTroubleshooting tips:\n- Verify all {{variable}} placeholders have corresponding values\n- Check that nested access paths are correct (e.g., {{resource.name}})\n- Ensure array indices are valid (e.g., {{resources.0.name}})\n- Use the 'list-variables' command to see available variables",
    );
    CliError::ProcessingError(text)
}

} // verus!
