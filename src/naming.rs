//! Attribute names: from embedded capitals to lower case with underscores.
use vstd::prelude::*;

verus! {

/// What `char::is_uppercase` returns: whether the character has the Unicode
/// `Uppercase` property.
pub uninterp spec fn is_upper_char(c: char) -> bool;

/// Whether a character is upper case: among ASCII characters, exactly the
/// letters `A` to `Z`; beyond ASCII, what `char::is_uppercase` says.
pub open spec fn upper_case(c: char) -> bool {
    if (c as u32) < 128 {
        'A' <= c <= 'Z'
    } else {
        is_upper_char(c)
    }
}

/// Relies on `char::is_uppercase`, which depends on the character alone and,
/// among ASCII characters, holds of the letters `A` to `Z` only.
#[verifier::external_body]
fn char_is_uppercase(c: char) -> (r: bool)
    ensures
        (c as u32) < 128 ==> (r <==> 'A' <= c <= 'Z'),
        (c as u32) >= 128 ==> r == is_upper_char(c),
{
    c.is_uppercase()
}

/// A character with ASCII upper-case letters mapped to lower case.
pub open spec fn ascii_lower(c: char) -> char {
    if 'A' <= c <= 'Z' {
        ((c as u32) + 32) as char
    } else {
        c
    }
}

/// Maps an ASCII upper-case letter to lower case and leaves any other
/// character as it is.
pub fn to_ascii_lower(c: char) -> (r: char)
    ensures
        r == ascii_lower(c),
{
    if 'A' <= c && c <= 'Z' {
        ((c as u8) + 32) as char
    } else {
        c
    }
}

/// What the character at `i` becomes, given each character with whether it is
/// upper case: an upper-case character is lowered, with an underscore before
/// it where it follows a character that is not upper case.
pub open spec fn snake_piece(cs: Seq<(char, bool)>, i: int) -> Seq<char> {
    if cs[i].1 {
        if i > 0 && !cs[i - 1].1 {
            seq!['_', ascii_lower(cs[i].0)]
        } else {
            seq![ascii_lower(cs[i].0)]
        }
    } else {
        seq![cs[i].0]
    }
}

/// The normalized form of characters marked upper case or not.
pub open spec fn snake_with(cs: Seq<(char, bool)>) -> Seq<char>
    decreases cs.len(),
{
    if cs.len() == 0 {
        Seq::empty()
    } else {
        snake_with(cs.drop_last()) + snake_piece(cs, cs.len() - 1)
    }
}

/// Each character of `s` with whether it is upper case.
pub open spec fn marked(s: Seq<char>) -> Seq<(char, bool)> {
    Seq::new(s.len(), |i: int| (s[i], upper_case(s[i])))
}

/// The normalized form of an identifier.
pub open spec fn snake_case(s: Seq<char>) -> Seq<char> {
    snake_with(marked(s))
}

proof fn lemma_snake_with_unmarked(cs: Seq<(char, bool)>)
    requires
        forall|i: int| 0 <= i < cs.len() ==> !(#[trigger] cs[i]).1,
    ensures
        snake_with(cs) == Seq::new(cs.len(), |i: int| cs[i].0),
    decreases cs.len(),
{
    if cs.len() > 0 {
        lemma_snake_with_unmarked(cs.drop_last());
        assert(!cs[cs.len() - 1].1);
        assert(snake_with(cs) =~= Seq::new(cs.len(), |i: int| cs[i].0));
    }
}

/// An identifier with no upper-case character is already normalized.
pub proof fn lemma_snake_case_keeps_lower_case(s: Seq<char>)
    requires
        forall|i: int| 0 <= i < s.len() ==> !upper_case(#[trigger] s[i]),
    ensures
        snake_case(s) == s,
{
    let cs = marked(s);
    assert forall|i: int| 0 <= i < cs.len() implies !(#[trigger] cs[i]).1 by {
        assert(!upper_case(s[i]));
    }
    lemma_snake_with_unmarked(cs);
    assert(Seq::new(cs.len(), |i: int| cs[i].0) =~= s);
}

/// No character of `t` is upper case, and each is ASCII.
pub open spec fn lower_ascii(t: Seq<char>) -> bool {
    forall|k: int| 0 <= k < t.len() ==> (#[trigger] t[k] as u32) < 128 && !('A' <= t[k] <= 'Z')
}

proof fn lemma_snake_with_lower_ascii(cs: Seq<(char, bool)>)
    requires
        forall|i: int|
            0 <= i < cs.len() ==> ((#[trigger] cs[i]).0 as u32) < 128 && (cs[i].1 <==> 'A'
                <= cs[i].0 <= 'Z'),
    ensures
        lower_ascii(snake_with(cs)),
    decreases cs.len(),
{
    if cs.len() > 0 {
        let rest = cs.drop_last();
        assert forall|i: int| 0 <= i < rest.len() implies ((#[trigger] rest[i]).0 as u32) < 128
            && (rest[i].1 <==> 'A' <= rest[i].0 <= 'Z') by {
            assert(rest[i] == cs[i]);
        }
        lemma_snake_with_lower_ascii(rest);
        let last = cs[cs.len() - 1];
        let piece = snake_piece(cs, cs.len() - 1);
        assert(lower_ascii(piece)) by {
            if last.1 {
                let l = ascii_lower(last.0);
                assert((l as u32) == (last.0 as u32) + 32);
                assert(!('A' <= l <= 'Z'));
            }
        }
        let prev = snake_with(rest);
        assert forall|k: int| 0 <= k < snake_with(cs).len() implies (#[trigger] snake_with(
            cs,
        )[k] as u32) < 128 && !('A' <= snake_with(cs)[k] <= 'Z') by {
            if k < prev.len() {
                assert(snake_with(cs)[k] == prev[k]);
            } else {
                assert(snake_with(cs)[k] == piece[k - prev.len()]);
            }
        }
    }
}

/// Normalizing an ASCII identifier a second time changes nothing.
pub proof fn lemma_snake_case_idempotent_on_ascii(s: Seq<char>)
    requires
        forall|i: int| 0 <= i < s.len() ==> (#[trigger] s[i] as u32) < 128,
    ensures
        snake_case(snake_case(s)) == snake_case(s),
{
    let cs = marked(s);
    assert forall|i: int| 0 <= i < cs.len() implies ((#[trigger] cs[i]).0 as u32) < 128 && (
    cs[i].1 <==> 'A' <= cs[i].0 <= 'Z') by {
        assert(cs[i] == (s[i], upper_case(s[i])));
    }
    lemma_snake_with_lower_ascii(cs);
    let t = snake_case(s);
    assert forall|i: int| 0 <= i < t.len() implies !upper_case(#[trigger] t[i]) by {
        assert((t[i] as u32) < 128 && !('A' <= t[i] <= 'Z'));
    }
    lemma_snake_case_keeps_lower_case(t);
}

/// Normalizes characters that come marked upper case or not: see
/// [`snake_piece`].
pub fn snake_from_marked(cs: &Vec<(char, bool)>) -> (r: String)
    ensures
        r@ == snake_with(cs@),
{
    let mut result = String::new();
    let mut i: usize = 0;
    while i < cs.len()
        invariant
            i <= cs@.len(),
            result@ == snake_with(cs@.take(i as int)),
        decreases cs.len() - i,
    {
        let (c, upper) = cs[i];
        if upper {
            if i > 0 && !cs[i - 1].1 {
                push_char(&mut result, '_');
            }
            push_char(&mut result, to_ascii_lower(c));
        } else {
            push_char(&mut result, c);
        }
        proof {
            let t = cs@.take(i + 1);
            assert(t.drop_last() =~= cs@.take(i as int));
            assert(snake_piece(t, i as int) == snake_piece(cs@, i as int));
        }
        i = i + 1;
    }
    assert(cs@.take(cs@.len() as int) =~= cs@);
    result
}

/// Converts an identifier with embedded capitals to lower case with
/// underscores: `"FirstName"` becomes `"first_name"`, and a run of capitals
/// stays together, so `"IsOurDNS"` becomes `"is_our_dns"`.
pub fn convert_camel_to_snake(name: &str) -> (r: String)
    ensures
        r@ == snake_case(name@),
{
    let mut cs: Vec<(char, bool)> = Vec::new();
    let ghost s = name@;
    for c in it: name.chars()
        invariant
            it.seq() == s,
            cs@ == marked(s).take(it.index() as int),
    {
        cs.push((c, char_is_uppercase(c)));
        assert(cs@ =~= marked(s).take(it.index() + 1));
    }
    assert(marked(s).take(s.len() as int) =~= marked(s));
    snake_from_marked(&cs)
}

/// Relies on `String::push`, which appends one character.
#[verifier::external_body]
pub(crate) fn push_char(s: &mut String, c: char)
    ensures
        final(s)@ == old(s)@.push(c),
{
    s.push(c)
}

} // verus!
