//! Cleaning free text for display in a notification.
use vstd::prelude::*;
use vstd::string::*;

verus! {

/// How many characters of a description a notification shows.
pub const MAX_DISPLAY_CHARS: usize = 200;

/// Whether the text so far leaves the scanner inside a tag: the last `<` or
/// `>` seen was a `<`.
pub open spec fn inside_after(s: Seq<char>) -> bool
    decreases s.len(),
{
    if s.len() == 0 {
        false
    } else if s.last() == '<' {
        true
    } else if s.last() == '>' {
        false
    } else {
        inside_after(s.drop_last())
    }
}

/// `s` with every `<` and `>` removed and every character between a `<` and
/// the next `>` removed; tags do not nest.
pub open spec fn without_markup(s: Seq<char>) -> Seq<char>
    decreases s.len(),
{
    if s.len() == 0 {
        seq![]
    } else {
        let c = s.last();
        let pre = s.drop_last();
        if c == '<' || c == '>' || inside_after(pre) {
            without_markup(pre)
        } else {
            without_markup(pre).push(c)
        }
    }
}

/// The non-breaking-space entity.
pub open spec fn nbsp() -> Seq<char> {
    seq!['&', 'n', 'b', 's', 'p', ';']
}

/// `s` with each `&nbsp;`, read left to right without overlap, made a space.
pub open spec fn nbsp_replaced(s: Seq<char>) -> Seq<char>
    decreases s.len(),
{
    if s.len() == 0 {
        seq![]
    } else if s.len() >= 6 && s.take(6) == nbsp() {
        seq![' '] + nbsp_replaced(s.skip(6))
    } else {
        seq![s[0]] + nbsp_replaced(s.skip(1))
    }
}

/// The marker that ends a cut description.
pub open spec fn ellipsis() -> Seq<char> {
    seq!['.', '.', '.']
}

/// `s` cut to its first `MAX_DISPLAY_CHARS` characters, marked, when longer.
pub open spec fn truncated(s: Seq<char>) -> Seq<char> {
    if s.len() > MAX_DISPLAY_CHARS {
        s.take(MAX_DISPLAY_CHARS as int) + ellipsis()
    } else {
        s
    }
}

/// What `str::trim` makes of a text.
pub uninterp spec fn trim_of(s: Seq<char>) -> Seq<char>;

/// The display form of a raw description.
pub open spec fn sanitized(raw: Seq<char>) -> Seq<char> {
    truncated(trim_of(nbsp_replaced(without_markup(raw))))
}

/// Relies on `str::trim`: leading and trailing whitespace removed, a result
/// that depends on the text alone.
#[verifier::external_body]
fn trim_text(s: &str) -> (r: String)
    ensures
        r@ == trim_of(s@),
{
    s.trim().to_string()
}

/// Relies on `str::chars`: the characters of the text, in order.
#[verifier::external_body]
fn chars_of(s: &str) -> (r: Vec<char>)
    ensures
        r@ == s@,
{
    s.chars().collect()
}

/// Relies on `String`'s `FromIterator<&char>`: the characters, in order.
#[verifier::external_body]
fn string_of(v: &Vec<char>) -> (r: String)
    ensures
        r@ == v@,
{
    v.iter().collect()
}

fn strip_chars(v: &Vec<char>) -> (r: Vec<char>)
    ensures
        r@ == without_markup(v@),
{
    let mut r: Vec<char> = Vec::new();
    let mut inside = false;
    let mut i: usize = 0;
    while i < v.len()
        invariant
            i <= v.len(),
            r@ == without_markup(v@.take(i as int)),
            inside == inside_after(v@.take(i as int)),
        decreases v.len() - i,
    {
        let c = v[i];
        proof {
            assert(v@.take(i + 1).drop_last() =~= v@.take(i as int));
            assert(v@.take(i + 1).last() == c);
        }
        if c == '<' {
            inside = true;
        } else if c == '>' {
            inside = false;
        } else if !inside {
            r.push(c);
        }
        i = i + 1;
    }
    proof {
        assert(v@.take(i as int) =~= v@);
    }
    r
}

/// Removes markup: every `<`, every `>`, and whatever stands between a `<` and
/// the next `>`.
pub fn strip_markup(s: &str) -> (r: String)
    ensures
        r@ == without_markup(s@),
{
    string_of(&strip_chars(&chars_of(s)))
}

fn nbsp_at(v: &Vec<char>, i: usize) -> (r: bool)
    requires
        i <= v.len(),
    ensures
        r == (v.len() - i >= 6 && v@.subrange(i as int, i + 6) == nbsp()),
{
    if v.len() - i < 6 {
        return false;
    }
    let r = v[i] == '&' && v[i + 1] == 'n' && v[i + 2] == 'b' && v[i + 3] == 's' && v[i + 4] == 'p'
        && v[i + 5] == ';';
    proof {
        let w = v@.subrange(i as int, i + 6);
        if r {
            assert(w =~= nbsp());
        } else if w == nbsp() {
            assert(w[0] == v[i as int] && w[1] == v[i + 1] && w[2] == v[i + 2]);
            assert(w[3] == v[i + 3] && w[4] == v[i + 4] && w[5] == v[i + 5]);
            assert(nbsp()[0] == '&' && nbsp()[1] == 'n' && nbsp()[2] == 'b');
            assert(nbsp()[3] == 's' && nbsp()[4] == 'p' && nbsp()[5] == ';');
        }
    }
    r
}

fn replace_chars(v: &Vec<char>) -> (r: Vec<char>)
    ensures
        r@ == nbsp_replaced(v@),
{
    let mut r: Vec<char> = Vec::new();
    let mut i: usize = 0;
    proof {
        assert(v@.skip(0) =~= v@);
        assert(r@ + nbsp_replaced(v@) =~= nbsp_replaced(v@));
    }
    while i < v.len()
        invariant
            i <= v.len(),
            r@ + nbsp_replaced(v@.skip(i as int)) == nbsp_replaced(v@),
        decreases v.len() - i,
    {
        let ghost rest = v@.skip(i as int);
        if nbsp_at(v, i) {
            proof {
                assert(rest.take(6) =~= v@.subrange(i as int, i + 6));
                assert(rest.skip(6) =~= v@.skip(i + 6));
                assert(r@.push(' ') =~= r@ + seq![' ']);
            }
            r.push(' ');
            i = i + 6;
        } else {
            proof {
                if rest.len() >= 6 {
                    assert(rest.take(6) =~= v@.subrange(i as int, i + 6));
                }
                assert(rest.skip(1) =~= v@.skip(i + 1));
                assert(r@.push(v[i as int]) =~= r@ + seq![rest[0]]);
            }
            r.push(v[i]);
            i = i + 1;
        }
    }
    proof {
        assert(v@.skip(i as int) =~= seq![]);
    }
    r
}

/// Turns each `&nbsp;` entity into a plain space.
pub fn replace_nbsp(s: &str) -> (r: String)
    ensures
        r@ == nbsp_replaced(s@),
{
    string_of(&replace_chars(&chars_of(s)))
}

/// Cuts text to `MAX_DISPLAY_CHARS` characters and appends `...` when it is
/// longer; shorter text is kept whole. The cut falls between characters.
pub fn truncate_display(s: &str) -> (r: String)
    ensures
        r@ == truncated(s@),
{
    let n = s.unicode_len();
    if n > MAX_DISPLAY_CHARS {
        let head = String::from_str(s.substring_char(0, MAX_DISPLAY_CHARS));
        let r = head.concat("...");
        proof {
            reveal_strlit("...");
            assert("..."@ =~= ellipsis());
        }
        r
    } else {
        String::from_str(s)
    }
}

/// The display form of a raw description: markup removed, `&nbsp;` made a
/// space, surrounding whitespace trimmed, and cut to the display length.
pub fn sanitize(raw: &str) -> (r: String)
    ensures
        r@ == sanitized(raw@),
{
    let v = chars_of(raw);
    let cleaned = string_of(&replace_chars(&strip_chars(&v)));
    let trimmed = trim_text(cleaned.as_str());
    truncate_display(trimmed.as_str())
}

} // verus!
