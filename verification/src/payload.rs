//! Request payload construction: the JSON bodies sent to the completion
//! endpoints, built from plain configuration values and the sanitized
//! prompt.
//!
//! The grammar is the library's own: strings are escaped as JSON demands,
//! numbers are rendered in decimal, and the object keys appear in the fixed
//! order the original wire format used.  The temperature is carried as
//! already-rendered numeric text and embedded verbatim.

use vstd::prelude::*;
use vstd::string::StringExecFns;
use crate::chars::chars_to_string;
use crate::chars::str_to_chars;
use crate::config::Config;
use crate::text::sanitized;

verus! {

/// The sixteen hexadecimal digit characters.
pub open spec fn hex_digit(n: int) -> char {
    if n == 0 {
        '0'
    } else if n == 1 {
        '1'
    } else if n == 2 {
        '2'
    } else if n == 3 {
        '3'
    } else if n == 4 {
        '4'
    } else if n == 5 {
        '5'
    } else if n == 6 {
        '6'
    } else if n == 7 {
        '7'
    } else if n == 8 {
        '8'
    } else if n == 9 {
        '9'
    } else if n == 10 {
        'a'
    } else if n == 11 {
        'b'
    } else if n == 12 {
        'c'
    } else if n == 13 {
        'd'
    } else if n == 14 {
        'e'
    } else {
        'f'
    }
}

/// How one character is written inside a JSON string literal.
pub open spec fn json_escape_char(c: char) -> Seq<char> {
    if c == '"' {
        seq!['\\', '"']
    } else if c == '\\' {
        seq!['\\', '\\']
    } else if c == '\n' {
        seq!['\\', 'n']
    } else if c == '\r' {
        seq!['\\', 'r']
    } else if c == '\t' {
        seq!['\\', 't']
    } else if c == '\u{8}' {
        seq!['\\', 'b']
    } else if c == '\u{c}' {
        seq!['\\', 'f']
    } else if (c as u32) < 32 {
        seq!['\\', 'u', '0', '0', hex_digit((c as u32) as int / 16), hex_digit(
            (c as u32) as int % 16,
        )]
    } else {
        seq![c]
    }
}

/// The JSON string-literal encoding of `s`, without the surrounding quotes.
pub open spec fn json_escape(s: Seq<char>) -> Seq<char>
    decreases s.len(),
{
    if s.len() == 0 {
        Seq::empty()
    } else {
        json_escape_char(s[0]) + json_escape(s.drop_first())
    }
}

proof fn lemma_json_escape_push(s: Seq<char>, c: char)
    ensures
        json_escape(s.push(c)) == json_escape(s) + json_escape_char(c),
    decreases s.len(),
{
    if s.len() == 0 {
        assert(s.push(c)[0] == c);
        assert(s.push(c).drop_first() =~= Seq::<char>::empty());
        assert(json_escape(Seq::<char>::empty()) =~= Seq::<char>::empty());
        assert(json_escape(s.push(c)) =~= json_escape_char(c) + Seq::<char>::empty());
        assert(json_escape_char(c) + Seq::<char>::empty() =~= json_escape_char(c));
        assert(json_escape(s) + json_escape_char(c) =~= json_escape_char(c));
    } else {
        assert(s.push(c)[0] == s[0]);
        assert(s.push(c).drop_first() =~= s.drop_first().push(c));
        lemma_json_escape_push(s.drop_first(), c);
        assert(json_escape(s.push(c)) =~= json_escape_char(s[0]) + (json_escape(s.drop_first())
            + json_escape_char(c)));
        assert(json_escape_char(s[0]) + (json_escape(s.drop_first()) + json_escape_char(c))
            =~= (json_escape_char(s[0]) + json_escape(s.drop_first())) + json_escape_char(c));
    }
}

fn hex_digit_char(n: u32) -> (c: char)
    requires
        n < 16,
    ensures
        c == hex_digit(n as int),
{
    match n {
        0 => '0',
        1 => '1',
        2 => '2',
        3 => '3',
        4 => '4',
        5 => '5',
        6 => '6',
        7 => '7',
        8 => '8',
        9 => '9',
        10 => 'a',
        11 => 'b',
        12 => 'c',
        13 => 'd',
        14 => 'e',
        _ => 'f',
    }
}

fn push_escaped(out: &mut Vec<char>, c: char)
    ensures
        final(out)@ == old(out)@ + json_escape_char(c),
{
    if c == '"' {
        out.push('\\');
        out.push('"');
    } else if c == '\\' {
        out.push('\\');
        out.push('\\');
    } else if c == '\n' {
        out.push('\\');
        out.push('n');
    } else if c == '\r' {
        out.push('\\');
        out.push('r');
    } else if c == '\t' {
        out.push('\\');
        out.push('t');
    } else if c == '\u{8}' {
        out.push('\\');
        out.push('b');
    } else if c == '\u{c}' {
        out.push('\\');
        out.push('f');
    } else if (c as u32) < 32 {
        let v = c as u32;
        out.push('\\');
        out.push('u');
        out.push('0');
        out.push('0');
        out.push(hex_digit_char(v / 16));
        out.push(hex_digit_char(v % 16));
    } else {
        out.push(c);
    }
    proof {
        assert(final(out)@ =~= old(out)@ + json_escape_char(c));
    }
}

/// Appends the JSON string-literal encoding of `cs` to `out`.
fn append_escaped(out: &mut Vec<char>, cs: &Vec<char>)
    ensures
        final(out)@ == old(out)@ + json_escape(cs@),
{
    let mut i: usize = 0;
    proof {
        assert(cs@.take(0) =~= Seq::<char>::empty());
        assert(json_escape(Seq::<char>::empty()) =~= Seq::<char>::empty());
        assert(old(out)@ + Seq::<char>::empty() =~= old(out)@);
    }
    while i < cs.len()
        invariant
            i <= cs@.len(),
            out@ == old(out)@ + json_escape(cs@.take(i as int)),
        decreases cs@.len() - i,
    {
        proof {
            lemma_json_escape_push(cs@.take(i as int), cs@[i as int]);
            assert(cs@.take(i as int).push(cs@[i as int]) =~= cs@.take(i as int + 1));
            assert((old(out)@ + json_escape(cs@.take(i as int))) + json_escape_char(cs@[i as int])
                =~= old(out)@ + (json_escape(cs@.take(i as int)) + json_escape_char(
                cs@[i as int],
            )));
        }
        let c = cs[i];
        push_escaped(out, c);
        i = i + 1;
    }
    proof {
        assert(cs@.take(cs@.len() as int) =~= cs@);
    }
}

/// The digit character for one decimal digit.
pub open spec fn dec_digit(n: int) -> char {
    if n == 0 {
        '0'
    } else if n == 1 {
        '1'
    } else if n == 2 {
        '2'
    } else if n == 3 {
        '3'
    } else if n == 4 {
        '4'
    } else if n == 5 {
        '5'
    } else if n == 6 {
        '6'
    } else if n == 7 {
        '7'
    } else if n == 8 {
        '8'
    } else {
        '9'
    }
}

/// The decimal digits of a non-negative number, most significant first.
pub open spec fn dec_rep(n: int) -> Seq<char>
    decreases n,
{
    if n < 10 {
        seq![dec_digit(n)]
    } else {
        dec_rep(n / 10).push(dec_digit(n % 10))
    }
}

/// A signed number in decimal text, with a leading minus sign when negative.
pub open spec fn int_text(n: int) -> Seq<char> {
    if n < 0 {
        seq!['-'] + dec_rep(-n)
    } else {
        dec_rep(n)
    }
}

fn dec_digit_char(n: u64) -> (c: char)
    requires
        n < 10,
    ensures
        c == dec_digit(n as int),
{
    match n {
        0 => '0',
        1 => '1',
        2 => '2',
        3 => '3',
        4 => '4',
        5 => '5',
        6 => '6',
        7 => '7',
        8 => '8',
        _ => '9',
    }
}

fn render_u64(n: u64) -> (v: Vec<char>)
    ensures
        v@ == dec_rep(n as int),
    decreases n,
{
    if n < 10 {
        let mut v: Vec<char> = Vec::new();
        v.push(dec_digit_char(n));
        proof {
            assert(v@ =~= seq![dec_digit(n as int)]);
        }
        v
    } else {
        let mut v = render_u64(n / 10);
        v.push(dec_digit_char(n % 10));
        v
    }
}

/// Renders a signed number as decimal text.
pub fn render_i64(n: i64) -> (v: Vec<char>)
    ensures
        v@ == int_text(n as int),
{
    if n >= 0 {
        render_u64(n as u64)
    } else {
        let mag: u64 = ((-(n + 1)) as u64) + 1;
        proof {
            assert(mag as int == -(n as int));
        }
        let digits = render_u64(mag);
        let mut v: Vec<char> = Vec::new();
        v.push('-');
        let mut i: usize = 0;
        while i < digits.len()
            invariant
                i <= digits@.len(),
                v@ == seq!['-'] + digits@.take(i as int),
            decreases digits@.len() - i,
        {
            proof {
                assert((seq!['-'] + digits@.take(i as int)).push(digits@[i as int]) =~= seq!['-']
                    + digits@.take(i as int + 1));
            }
            let c = digits[i];
            v.push(c);
            i = i + 1;
        }
        proof {
            assert(digits@.take(digits@.len() as int) =~= digits@);
        }
        v
    }
}

/// The chat-completion request body: the sanitized prompt with the literal
/// two-character newline escapes appended becomes the single user message,
/// the generation parameters come from the configuration, and streaming is
/// requested.  Keys are in the original wire order.
pub open spec fn chat_body_text(
    model: Seq<char>,
    prompt: Seq<char>,
    max_tokens: int,
    temperature: Seq<char>,
) -> Seq<char> {
    "{\"max_tokens\":"@ + int_text(max_tokens) + ",\"messages\":[{\"content\":\""@ + json_escape(
        sanitized(prompt) + seq!['\\', 'n', '\\', 'n'],
    ) + "\",\"role\":\"user\"}],\"model\":\""@ + json_escape(model) + "\",\"stream\":true,\"temperature\":"@
        + temperature + "}"@
}

fn append_str(out: &mut Vec<char>, piece: &str)
    ensures
        final(out)@ == old(out)@ + piece@,
{
    let mut cs = str_to_chars(piece);
    out.append(&mut cs);
}

/// Builds the streaming chat request body for one prompt.
pub fn build_request_body(config: &Config, prompt: &str) -> (r: String)
    ensures
        r@ == chat_body_text(config.model@, prompt@, config.max_tokens as int,
            config.temperature@),
{
    let sanitized_input = crate::text::sanitize_input(String::from_str(prompt));
    let mut content = str_to_chars(sanitized_input.as_str());
    let mut marker = str_to_chars("\\n\\n");
    proof {
        reveal_strlit("\\n\\n");
        assert(marker@ =~= seq!['\\', 'n', '\\', 'n']);
    }
    content.append(&mut marker);
    let mut out: Vec<char> = Vec::new();
    append_str(&mut out, "{\"max_tokens\":");
    let mut num = render_i64(config.max_tokens);
    out.append(&mut num);
    append_str(&mut out, ",\"messages\":[{\"content\":\"");
    append_escaped(&mut out, &content);
    append_str(&mut out, "\",\"role\":\"user\"}],\"model\":\"");
    let model_chars = str_to_chars(config.model.as_str());
    append_escaped(&mut out, &model_chars);
    append_str(&mut out, "\",\"stream\":true,\"temperature\":");
    append_str(&mut out, config.temperature.as_str());
    append_str(&mut out, "}");
    proof {
        assert(out@ =~= chat_body_text(config.model@, prompt@, config.max_tokens as int,
            config.temperature@));
    }
    chars_to_string(&out)
}

/// The authorization header value: the word `Bearer`, a space, and the
/// credential, verbatim.
pub fn build_bearer(api_key: &str) -> (r: String)
    ensures
        r@ == "Bearer "@ + api_key@,
{
    let mut out: Vec<char> = Vec::new();
    append_str(&mut out, "Bearer ");
    append_str(&mut out, api_key);
    chars_to_string(&out)
}

/// What the plain completion client sends as sanitized prompt text: the
/// final character (the trailing input terminator) removed, quotes escaped.
pub open spec fn chopped_sanitized(prompt: Seq<char>) -> Seq<char> {
    if prompt.len() > 0 {
        crate::text::escape_quotes(prompt.drop_last())
    } else {
        Seq::empty()
    }
}

/// The plain (non-streaming) completion request body, keys in the original
/// wire order; both numeric parameters are integers here.
pub open spec fn completion_body_text(
    model: Seq<char>,
    prompt: Seq<char>,
    max_tokens: int,
    temperature: int,
) -> Seq<char> {
    "{\"max_tokens\":"@ + int_text(max_tokens) + ",\"model\":\""@ + json_escape(model)
        + "\",\"prompt\":\""@ + json_escape(chopped_sanitized(prompt) + seq!['\\', 'n', '\\', 'n'])
        + "\",\"temperature\":"@ + int_text(temperature) + "}"@
}

/// Builds the plain completion request body for one prompt.
pub fn build_completion_body(model: &str, prompt: &str, max_tokens: i64, temperature: i64) -> (r:
    String)
    ensures
        r@ == completion_body_text(model@, prompt@, max_tokens as int, temperature as int),
{
    let cs = str_to_chars(prompt);
    let mut content: Vec<char> = Vec::new();
    let end: usize = if cs.len() > 0 {
        cs.len() - 1
    } else {
        0
    };
    let mut i: usize = 0;
    while i < end
        invariant
            cs@ == prompt@,
            end <= cs@.len(),
            i <= end,
            content@ == crate::text::escape_quotes(cs@.take(i as int)),
        decreases end - i,
    {
        proof {
            crate::text::lemma_escape_quotes_push(cs@.take(i as int), cs@[i as int]);
            assert(cs@.take(i as int).push(cs@[i as int]) =~= cs@.take(i + 1));
        }
        if cs[i] == '"' {
            content.push('\\');
            content.push('"');
        } else {
            let c = cs[i];
            content.push(c);
        }
        i = i + 1;
    }
    proof {
        if cs@.len() > 0 {
            assert(cs@.take(cs@.len() - 1) =~= cs@.drop_last());
        } else {
            assert(cs@.take(0) =~= Seq::<char>::empty());
        }
        assert(content@ == chopped_sanitized(prompt@));
    }
    let mut marker = str_to_chars("\\n\\n");
    proof {
        reveal_strlit("\\n\\n");
        assert(marker@ =~= seq!['\\', 'n', '\\', 'n']);
    }
    content.append(&mut marker);
    let mut out: Vec<char> = Vec::new();
    append_str(&mut out, "{\"max_tokens\":");
    let mut num = render_i64(max_tokens);
    out.append(&mut num);
    append_str(&mut out, ",\"model\":\"");
    let model_chars = str_to_chars(model);
    append_escaped(&mut out, &model_chars);
    append_str(&mut out, "\",\"prompt\":\"");
    append_escaped(&mut out, &content);
    append_str(&mut out, "\",\"temperature\":");
    let mut tnum = render_i64(temperature);
    out.append(&mut tnum);
    append_str(&mut out, "}");
    proof {
        assert(out@ =~= completion_body_text(model@, prompt@, max_tokens as int,
            temperature as int));
    }
    chars_to_string(&out)
}

} // verus!
