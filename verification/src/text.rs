//! Prompt sanitizing and delta post-processing.

use vstd::prelude::*;
use vstd::string::StringExecFns;
use crate::chars::chars_to_string;
use crate::chars::str_to_chars;

verus! {

/// Characters of `s` with every trailing newline removed.
pub open spec fn strip_trailing_newlines(s: Seq<char>) -> Seq<char>
    decreases s.len(),
{
    if s.len() > 0 && s.last() == '\n' {
        strip_trailing_newlines(s.drop_last())
    } else {
        s
    }
}

/// The replacement for one character under quote escaping.
pub open spec fn escape1(c: char) -> Seq<char> {
    if c == '"' {
        seq!['\\', '"']
    } else {
        seq![c]
    }
}

/// Characters of `s` with every double quote preceded by a backslash.
pub open spec fn escape_quotes(s: Seq<char>) -> Seq<char>
    decreases s.len(),
{
    if s.len() == 0 {
        Seq::empty()
    } else {
        escape1(s[0]) + escape_quotes(s.drop_first())
    }
}

pub proof fn lemma_escape_quotes_push(s: Seq<char>, c: char)
    ensures
        escape_quotes(s.push(c)) == escape_quotes(s) + escape1(c),
    decreases s.len(),
{
    if s.len() == 0 {
        assert(s.push(c)[0] == c);
        assert(s.push(c).drop_first() =~= Seq::<char>::empty());
        assert(escape_quotes(Seq::<char>::empty()) =~= Seq::<char>::empty());
        assert(escape_quotes(s.push(c)) =~= escape1(c) + Seq::<char>::empty());
        assert(escape1(c) + Seq::<char>::empty() =~= escape1(c));
        assert(escape_quotes(s) + escape1(c) =~= escape1(c));
    } else {
        assert(s.push(c)[0] == s[0]);
        assert(s.push(c).drop_first() =~= s.drop_first().push(c));
        lemma_escape_quotes_push(s.drop_first(), c);
        assert(escape_quotes(s.push(c)) =~= escape1(s[0]) + (escape_quotes(s.drop_first())
            + escape1(c)));
        assert(escape1(s[0]) + (escape_quotes(s.drop_first()) + escape1(c)) =~= (escape1(s[0])
            + escape_quotes(s.drop_first())) + escape1(c));
    }
}

proof fn lemma_strip_is_take(s: Seq<char>, end: int)
    requires
        0 <= end <= s.len(),
        forall|j: int| end <= j < s.len() ==> s[j] == '\n',
        end > 0 ==> s[end - 1] != '\n',
    ensures
        strip_trailing_newlines(s) == s.take(end),
    decreases s.len(),
{
    if s.len() > end {
        assert(s.last() == '\n');
        lemma_strip_is_take(s.drop_last(), end);
        assert(s.drop_last().take(end) =~= s.take(end));
    } else {
        if end == 0 {
            assert(s.take(0) =~= s);
        } else {
            assert(s.last() != '\n');
            assert(s.take(end) =~= s);
        }
    }
}

/// What sanitizing leaves of a prompt: trailing newlines stripped, quotes
/// escaped.
pub open spec fn sanitized(s: Seq<char>) -> Seq<char> {
    escape_quotes(strip_trailing_newlines(s))
}

/// Strips the trailing line terminators from a submitted prompt and escapes
/// every embedded double quote with a backslash.
pub fn sanitize_input(input: String) -> (r: String)
    ensures
        r@ == sanitized(input@),
{
    let cs = str_to_chars(input.as_str());
    let mut end: usize = cs.len();
    while end > 0 && cs[end - 1] == '\n'
        invariant
            end <= cs.len(),
            cs@ == input@,
            forall|j: int| end <= j < cs@.len() ==> cs@[j] == '\n',
        decreases end,
    {
        end = end - 1;
    }
    proof {
        lemma_strip_is_take(input@, end as int);
    }
    let mut out: Vec<char> = Vec::new();
    let mut i: usize = 0;
    while i < end
        invariant
            i <= end <= cs.len(),
            cs@ == input@,
            out@ == escape_quotes(input@.take(i as int)),
        decreases end - i,
    {
        proof {
            lemma_escape_quotes_push(input@.take(i as int), input@[i as int]);
            assert(input@.take(i as int).push(input@[i as int]) =~= input@.take(i + 1));
        }
        if cs[i] == '"' {
            out.push('\\');
            out.push('"');
        } else {
            out.push(cs[i]);
        }
        i = i + 1;
    }
    chars_to_string(&out)
}

/// Characters of `s` with every two-character newline escape replaced by an
/// actual line break, scanning left to right without overlap.
pub open spec fn replace_escapes(s: Seq<char>) -> Seq<char>
    decreases s.len(),
{
    if s.len() == 0 {
        Seq::empty()
    } else if s.len() >= 2 && s[0] == '\\' && s[1] == 'n' {
        seq!['\n'] + replace_escapes(s.skip(2))
    } else {
        seq![s[0]] + replace_escapes(s.skip(1))
    }
}

/// How often `c` occurs in `s`.
pub open spec fn count_char(s: Seq<char>, c: char) -> int
    decreases s.len(),
{
    if s.len() == 0 {
        0
    } else {
        (if s[0] == c {
            1int
        } else {
            0int
        }) + count_char(s.skip(1), c)
    }
}

/// Replaces every two-character newline escape in `cs` by a line break.
fn replace_newline_escapes(cs: &Vec<char>) -> (out: Vec<char>)
    ensures
        out@ == replace_escapes(cs@),
{
    let mut out: Vec<char> = Vec::new();
    let mut i: usize = 0;
    proof {
        assert(cs@.skip(0) =~= cs@);
        assert(Seq::<char>::empty() + replace_escapes(cs@) =~= replace_escapes(cs@));
    }
    while i < cs.len()
        invariant
            i <= cs.len(),
            replace_escapes(cs@) == out@ + replace_escapes(cs@.skip(i as int)),
        decreases cs.len() - i,
    {
        if i + 1 < cs.len() && cs[i] == '\\' && cs[i + 1] == 'n' {
            proof {
                assert(cs@.skip(i as int)[0] == cs@[i as int]);
                assert(cs@.skip(i as int)[1] == cs@[i as int + 1]);
                assert(cs@.skip(i as int).skip(2) =~= cs@.skip(i as int + 2));
                assert(out@ + (seq!['\n'] + replace_escapes(cs@.skip(i as int + 2))) =~= (out@
                    + seq!['\n']) + replace_escapes(cs@.skip(i as int + 2)));
            }
            out.push('\n');
            i = i + 2;
        } else {
            proof {
                assert(cs@.skip(i as int)[0] == cs@[i as int]);
                assert(cs@.skip(i as int).skip(1) =~= cs@.skip(i as int + 1));
                assert(out@ + (seq![cs@[i as int]] + replace_escapes(cs@.skip(i as int + 1)))
                    =~= (out@ + seq![cs@[i as int]]) + replace_escapes(cs@.skip(i as int + 1)));
            }
            let c = cs[i];
            out.push(c);
            i = i + 1;
        }
    }
    proof {
        assert(cs@.skip(cs@.len() as int) =~= Seq::<char>::empty());
        assert(out@ + Seq::<char>::empty() =~= out@);
    }
    out
}

/// The pending fragments of the print buffer, joined into one string.
pub open spec fn buffered(pb: Seq<Seq<char>>) -> Seq<char> {
    pb.flatten()
}

/// Remembers a fragment that ended in a lone escape character; nothing is
/// printed for it yet.
pub fn store_and_do_nothing(print_buffer: &mut Vec<String>, text: &str) -> (r: String)
    ensures
        final(print_buffer)@.len() == old(print_buffer)@.len() + 1,
        final(print_buffer).deep_view() == old(print_buffer).deep_view().push(text@),
        r@ == Seq::<char>::empty(),
{
    let owned = String::from_str(text);
    print_buffer.push(owned);
    proof {
        assert(print_buffer.deep_view() =~= old(print_buffer).deep_view().push(text@));
    }
    String::new()
}

/// Joins the pending fragments with the new one, clears the buffer, and
/// translates the two-character newline escapes in the combined text.
pub fn join_and_clear(print_buffer: &mut Vec<String>, text: &str) -> (r: String)
    ensures
        final(print_buffer)@.len() == 0,
        r@ == replace_escapes(buffered(old(print_buffer).deep_view()) + text@),
{
    let mut joined: Vec<char> = Vec::new();
    let mut i: usize = 0;
    while i < print_buffer.len()
        invariant
            i <= print_buffer.len(),
            print_buffer.deep_view() == old(print_buffer).deep_view(),
            joined@ == print_buffer.deep_view().take(i as int).flatten_alt(),
        decreases print_buffer.len() - i,
    {
        proof {
            let dv = print_buffer.deep_view();
            assert(dv.take(i as int + 1).drop_last() =~= dv.take(i as int));
            assert(dv.take(i as int + 1).last() == dv[i as int]);
        }
        let mut piece = str_to_chars(print_buffer[i].as_str());
        joined.append(&mut piece);
        i = i + 1;
    }
    proof {
        let dv = print_buffer.deep_view();
        assert(dv.take(dv.len() as int) =~= dv);
        dv.lemma_flatten_and_flatten_alt_are_equivalent();
    }
    let mut tail = str_to_chars(text);
    joined.append(&mut tail);
    print_buffer.clear();
    let out = replace_newline_escapes(&joined);
    chars_to_string(&out)
}

/// Length of the run of backslashes at the end of `s`.
pub open spec fn trailing_backslashes(s: Seq<char>) -> int
    decreases s.len(),
{
    if s.len() > 0 && s.last() == '\\' {
        1 + trailing_backslashes(s.drop_last())
    } else {
        0
    }
}

/// The text ends in a lone, unpaired escape character: its trailing run of
/// backslashes has odd length, so the final backslash may be the first half
/// of a split newline escape.  A delta ending in an escaped backslash (an
/// even run) is complete and passes through.
pub open spec fn ends_in_lone_escape(s: Seq<char>) -> bool {
    trailing_backslashes(s) % 2 == 1
}

proof fn lemma_trailing_run(s: Seq<char>, k: int)
    requires
        0 <= k <= s.len(),
        forall|j: int| k <= j < s.len() ==> s[j] == '\\',
        k > 0 ==> s[k - 1] != '\\',
    ensures
        trailing_backslashes(s) == s.len() - k,
    decreases s.len(),
{
    if s.len() > k {
        assert(s.last() == '\\');
        lemma_trailing_run(s.drop_last(), k);
    } else {
        if k > 0 {
            assert(s.last() != '\\');
        }
    }
}

/// What post-processing emits for a delta `text` with pending fragments
/// `pb`: nothing while a lone trailing escape is held back; the joined and
/// translated text when fragments were pending; the delta itself otherwise.
pub open spec fn processed_text(pb: Seq<Seq<char>>, text: Seq<char>) -> Seq<char> {
    if ends_in_lone_escape(text) {
        Seq::empty()
    } else if pb.len() > 0 {
        replace_escapes(buffered(pb) + text)
    } else {
        text
    }
}

/// The pending fragments after post-processing a delta: the delta joins them
/// when it ends in a lone, unpaired escape character; otherwise the buffer
/// empties.
pub open spec fn buffer_after(pb: Seq<Seq<char>>, text: Seq<char>) -> Seq<Seq<char>> {
    if ends_in_lone_escape(text) {
        pb.push(text)
    } else {
        Seq::empty()
    }
}

/// Repairs newline escapes that the server split across adjacent deltas: a
/// delta ending in a lone escape character is held back; once the next delta
/// arrives, the combined text is emitted with the escapes translated; a delta
/// that needs neither passes through unchanged.
pub fn fix_newlines(print_buffer: &mut Vec<String>, text: &str) -> (r: String)
    ensures
        r@ == processed_text(old(print_buffer).deep_view(), text@),
        final(print_buffer).deep_view() == buffer_after(old(print_buffer).deep_view(), text@),
{
    let cs = str_to_chars(text);
    let mut k: usize = cs.len();
    while k > 0 && cs[k - 1] == '\\'
        invariant
            k <= cs.len(),
            cs@ == text@,
            forall|j: int| k <= j < cs@.len() ==> cs@[j] == '\\',
        decreases k,
    {
        k = k - 1;
    }
    proof {
        lemma_trailing_run(text@, k as int);
    }
    if (cs.len() - k) % 2 == 1 {
        return store_and_do_nothing(print_buffer, text);
    }
    if print_buffer.len() > 0 {
        let r = join_and_clear(print_buffer, text);
        proof {
            assert(print_buffer.deep_view() =~~= Seq::<Seq<char>>::empty());
        }
        return r;
    }
    proof {
        assert(print_buffer.deep_view() =~~= Seq::<Seq<char>>::empty());
    }
    String::from_str(text)
}

/// Turns a raw content delta into display-ready text; the print buffer holds
/// fragments that are still waiting for the second half of a split escape.
pub fn post_process(print_buffer: &mut Vec<String>, text: &str) -> (r: String)
    ensures
        r@ == processed_text(old(print_buffer).deep_view(), text@),
        final(print_buffer).deep_view() == buffer_after(old(print_buffer).deep_view(), text@),
{
    fix_newlines(print_buffer, text)
}

/// Characters of `s` with every leading newline removed.
pub open spec fn strip_leading_newlines(s: Seq<char>) -> Seq<char>
    decreases s.len(),
{
    if s.len() > 0 && s[0] == '\n' {
        strip_leading_newlines(s.drop_first())
    } else {
        s
    }
}

proof fn lemma_strip_leading_is_skip(s: Seq<char>, k: int)
    requires
        0 <= k <= s.len(),
        forall|j: int| 0 <= j < k ==> s[j] == '\n',
        k < s.len() ==> s[k] != '\n',
    ensures
        strip_leading_newlines(s) == s.skip(k),
    decreases k,
{
    if k > 0 {
        assert(s[0] == '\n');
        lemma_strip_leading_is_skip(s.drop_first(), k - 1);
        assert(s.drop_first().skip(k - 1) =~= s.skip(k));
    } else {
        assert(s.skip(0) =~= s);
    }
}

/// Drops the first and the last character: the double quotes that a raw
/// JSON-rendered string value carries.
pub fn remove_quotation_marks(text: String) -> (r: String)
    requires
        text@.len() >= 2,
    ensures
        r@ == text@.subrange(1, text@.len() - 1),
{
    let cs = str_to_chars(text.as_str());
    let mut out: Vec<char> = Vec::new();
    let mut i: usize = 1;
    while i < cs.len() - 1
        invariant
            cs@ == text@,
            cs@.len() >= 2,
            1 <= i <= cs.len() - 1,
            out@ == text@.subrange(1, i as int),
        decreases cs.len() - 1 - i,
    {
        proof {
            assert(text@.subrange(1, i as int).push(text@[i as int]) =~= text@.subrange(
                1,
                i as int + 1,
            ));
        }
        let c = cs[i];
        out.push(c);
        i = i + 1;
    }
    chars_to_string(&out)
}

/// Drops every newline at the start of the text.
pub fn remove_leading_newlines(text: String) -> (r: String)
    ensures
        r@ == strip_leading_newlines(text@),
{
    let cs = str_to_chars(text.as_str());
    let mut k: usize = 0;
    while k < cs.len() && cs[k] == '\n'
        invariant
            cs@ == text@,
            k <= cs.len(),
            forall|j: int| 0 <= j < k ==> cs@[j] == '\n',
        decreases cs.len() - k,
    {
        k = k + 1;
    }
    proof {
        lemma_strip_leading_is_skip(text@, k as int);
    }
    let mut out: Vec<char> = Vec::new();
    let mut i: usize = k;
    while i < cs.len()
        invariant
            cs@ == text@,
            k <= i <= cs.len(),
            out@ == text@.subrange(k as int, i as int),
        decreases cs.len() - i,
    {
        proof {
            assert(text@.subrange(k as int, i as int).push(text@[i as int]) =~= text@.subrange(
                k as int,
                i as int + 1,
            ));
        }
        let c = cs[i];
        out.push(c);
        i = i + 1;
    }
    proof {
        assert(text@.subrange(k as int, text@.len() as int) =~= text@.skip(k as int));
    }
    chars_to_string(&out)
}

/// What sanitizing leaves of a raw completion response: newline escapes
/// translated, the surrounding quotes removed, leading newlines dropped.
pub open spec fn sanitized_response(s: Seq<char>) -> Seq<char> {
    let replaced = replace_escapes(s);
    strip_leading_newlines(replaced.subrange(1, replaced.len() - 1))
}

/// Turns a raw quoted completion response into display text: translates the
/// newline escapes, removes the surrounding quotation marks, and drops any
/// leading newlines.
pub fn sanitize_response(response: String) -> (r: String)
    requires
        replace_escapes(response@).len() >= 2,
    ensures
        r@ == sanitized_response(response@),
{
    let cs = str_to_chars(response.as_str());
    let replaced = replace_newline_escapes(&cs);
    let text = chars_to_string(&replaced);
    let unquoted = remove_quotation_marks(text);
    remove_leading_newlines(unquoted)
}

/// No character of `s` is a backslash.
pub open spec fn backslash_free(s: Seq<char>) -> bool {
    forall|i: int| 0 <= i < s.len() ==> s[i] != '\\'
}

proof fn lemma_replace_escapes_no_backslash(s: Seq<char>)
    requires
        backslash_free(s),
    ensures
        replace_escapes(s) == s,
    decreases s.len(),
{
    if s.len() > 0 {
        assert(s[0] != '\\');
        lemma_replace_escapes_no_backslash(s.skip(1));
        assert(seq![s[0]] + s.skip(1) =~= s);
    }
}

proof fn lemma_count_char_append(a: Seq<char>, b: Seq<char>, c: char)
    ensures
        count_char(a + b, c) == count_char(a, c) + count_char(b, c),
    decreases a.len(),
{
    if a.len() == 0 {
        assert(a + b =~= b);
    } else {
        assert((a + b)[0] == a[0]);
        assert((a + b).skip(1) =~= a.skip(1) + b);
        lemma_count_char_append(a.skip(1), b, c);
    }
}

proof fn lemma_count_char_absent(s: Seq<char>, c: char)
    requires
        forall|i: int| 0 <= i < s.len() ==> s[i] != c,
    ensures
        count_char(s, c) == 0,
    decreases s.len(),
{
    if s.len() > 0 {
        lemma_count_char_absent(s.skip(1), c);
    }
}

/// A delta ending in a lone escape character, joined with the next delta that
/// provides the completing character and then translated, yields exactly one
/// line break: never a literal two-character escape, and never two breaks.
pub proof fn lemma_split_escape_single_newline(a: Seq<char>, b: Seq<char>)
    requires
        a.len() > 0,
        a.last() == '\\',
        backslash_free(a.drop_last()),
        b.len() > 0,
        b[0] == 'n',
        backslash_free(b),
        forall|i: int| 0 <= i < a.len() ==> a[i] != '\n',
        forall|i: int| 0 <= i < b.len() ==> b[i] != '\n',
    ensures
        replace_escapes(a + b) == a.drop_last() + seq!['\n'] + b.drop_first(),
        count_char(replace_escapes(a + b), '\n') == 1,
    decreases a.len(),
{
    let s = a + b;
    if a.len() == 1 {
        assert(s[0] == '\\');
        assert(s[1] == 'n');
        assert(s.len() >= 2);
        assert(s.skip(2) =~= b.drop_first());
        lemma_replace_escapes_no_backslash(b.drop_first());
        assert(replace_escapes(s) == seq!['\n'] + b.drop_first());
        assert(a.drop_last() + seq!['\n'] + b.drop_first() =~= seq!['\n'] + b.drop_first());
    } else {
        assert(s[0] == a[0]);
        assert(a.drop_last()[0] == a[0]);
        assert(a[0] != '\\');
        assert(!(s.len() >= 2 && s[0] == '\\' && s[1] == 'n'));
        assert(s.skip(1) =~= a.drop_first() + b);
        assert(a.drop_first().last() == '\\');
        assert(a.drop_first().drop_last() =~= a.drop_last().drop_first());
        lemma_split_escape_single_newline(a.drop_first(), b);
        assert(replace_escapes(s) == seq![a[0]] + (a.drop_first().drop_last() + seq!['\n']
            + b.drop_first()));
        assert(seq![a[0]] + (a.drop_first().drop_last() + seq!['\n'] + b.drop_first())
            =~= a.drop_last() + seq!['\n'] + b.drop_first());
    }
    let r = replace_escapes(s);
    lemma_count_char_append(a.drop_last() + seq!['\n'], b.drop_first(), '\n');
    lemma_count_char_append(a.drop_last(), seq!['\n'], '\n');
    lemma_count_char_absent(a.drop_last(), '\n');
    lemma_count_char_absent(b.drop_first(), '\n');
    assert(count_char(seq!['\n'], '\n') == 1) by {
        assert(seq!['\n'].skip(1) =~= Seq::<char>::empty());
        assert(count_char(Seq::<char>::empty(), '\n') == 0);
    }
    assert((a.drop_last() + seq!['\n']) + b.drop_first() =~= a.drop_last() + seq!['\n']
        + b.drop_first());
}

} // verus!
