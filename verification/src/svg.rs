//! Text escaping and attribute spellings used when writing SVG.

use vstd::prelude::*;

use crate::scene::{TextAnchor, TextWeight};
use crate::text::{chars_of, push_char};

verus! {

/// What one character becomes in SVG text content.
pub open spec fn text_entity(c: char) -> Seq<char> {
    if c == '&' {
        seq!['&', 'a', 'm', 'p', ';']
    } else if c == '<' {
        seq!['&', 'l', 't', ';']
    } else if c == '>' {
        seq!['&', 'g', 't', ';']
    } else {
        seq![c]
    }
}

/// What one character becomes in an SVG attribute value.
pub open spec fn attr_entity(c: char) -> Seq<char> {
    if c == '"' {
        seq!['&', 'q', 'u', 'o', 't', ';']
    } else if c == '\'' {
        seq!['&', 'a', 'p', 'o', 's', ';']
    } else {
        text_entity(c)
    }
}

/// `s` with `&`, `<` and `>` replaced by their entities.
pub open spec fn escape_text_spec(s: Seq<char>) -> Seq<char>
    decreases s.len(),
{
    if s.len() == 0 {
        Seq::empty()
    } else {
        text_entity(s[0]) + escape_text_spec(s.drop_first())
    }
}

/// `s` with `&`, `<`, `>`, `"` and `'` replaced by their entities.
pub open spec fn escape_attr_spec(s: Seq<char>) -> Seq<char>
    decreases s.len(),
{
    if s.len() == 0 {
        Seq::empty()
    } else {
        attr_entity(s[0]) + escape_attr_spec(s.drop_first())
    }
}

proof fn lemma_escape_text_push(s: Seq<char>, c: char)
    ensures
        escape_text_spec(s.push(c)) == escape_text_spec(s) + text_entity(c),
    decreases s.len(),
{
    if s.len() == 0 {
        assert(s.push(c).drop_first() =~= Seq::<char>::empty());
        assert(s.push(c)[0] == c);
        assert(escape_text_spec(s.push(c).drop_first()) =~= Seq::<char>::empty());
        assert(escape_text_spec(s) =~= Seq::<char>::empty());
        assert(escape_text_spec(s.push(c)) =~= text_entity(c));
    } else {
        assert(s.push(c).drop_first() =~= s.drop_first().push(c));
        lemma_escape_text_push(s.drop_first(), c);
        assert(escape_text_spec(s.push(c)) =~= escape_text_spec(s) + text_entity(c));
    }
}

proof fn lemma_escape_attr_push(s: Seq<char>, c: char)
    ensures
        escape_attr_spec(s.push(c)) == escape_attr_spec(s) + attr_entity(c),
    decreases s.len(),
{
    if s.len() == 0 {
        assert(s.push(c).drop_first() =~= Seq::<char>::empty());
        assert(s.push(c)[0] == c);
        assert(escape_attr_spec(s.push(c).drop_first()) =~= Seq::<char>::empty());
        assert(escape_attr_spec(s) =~= Seq::<char>::empty());
        assert(escape_attr_spec(s.push(c)) =~= attr_entity(c));
    } else {
        assert(s.push(c).drop_first() =~= s.drop_first().push(c));
        lemma_escape_attr_push(s.drop_first(), c);
        assert(escape_attr_spec(s.push(c)) =~= escape_attr_spec(s) + attr_entity(c));
    }
}

fn append_chars(out: &mut String, chunk: &[char])
    ensures
        final(out)@ == old(out)@ + chunk@,
{
    let n = chunk.len();
    let ghost start = out@;
    for i in 0..n
        invariant
            n == chunk@.len(),
            out@ == start + chunk@.take(i as int),
            start == old(out)@,
    {
        push_char(out, chunk[i]);
        assert(chunk@.take(i + 1) =~= chunk@.take(i as int).push(chunk@[i as int]));
    }
    assert(chunk@.take(n as int) =~= chunk@);
}

/// Escapes text content: `&`, `<` and `>` become entities.
pub fn escape_text(value: &str) -> (out: String)
    ensures
        out@ == escape_text_spec(value@),
{
    let x = chars_of(value);
    let mut out = String::new();
    let n = x.len();
    for i in 0..n
        invariant
            n == x.len(),
            x@ == value@,
            out@ == escape_text_spec(value@.take(i as int)),
    {
        let c = x[i];
        proof {
            lemma_escape_text_push(value@.take(i as int), c);
            assert(value@.take(i + 1) =~= value@.take(i as int).push(c));
        }
        if c == '&' {
            append_chars(&mut out, &['&', 'a', 'm', 'p', ';']);
        } else if c == '<' {
            append_chars(&mut out, &['&', 'l', 't', ';']);
        } else if c == '>' {
            append_chars(&mut out, &['&', 'g', 't', ';']);
        } else {
            push_char(&mut out, c);
        }
    }
    assert(value@.take(n as int) =~= value@);
    out
}

/// Escapes an attribute value: `&`, `<`, `>`, `"` and `'` become entities.
pub fn escape_attr(value: &str) -> (out: String)
    ensures
        out@ == escape_attr_spec(value@),
{
    let x = chars_of(value);
    let mut out = String::new();
    let n = x.len();
    for i in 0..n
        invariant
            n == x.len(),
            x@ == value@,
            out@ == escape_attr_spec(value@.take(i as int)),
    {
        let c = x[i];
        proof {
            lemma_escape_attr_push(value@.take(i as int), c);
            assert(value@.take(i + 1) =~= value@.take(i as int).push(c));
        }
        if c == '&' {
            append_chars(&mut out, &['&', 'a', 'm', 'p', ';']);
        } else if c == '<' {
            append_chars(&mut out, &['&', 'l', 't', ';']);
        } else if c == '>' {
            append_chars(&mut out, &['&', 'g', 't', ';']);
        } else if c == '"' {
            append_chars(&mut out, &['&', 'q', 'u', 'o', 't', ';']);
        } else if c == '\'' {
            append_chars(&mut out, &['&', 'a', 'p', 'o', 's', ';']);
        } else {
            push_char(&mut out, c);
        }
    }
    assert(value@.take(n as int) =~= value@);
    out
}

/// Reading escaped text back: each entity becomes its character again.
pub open spec fn unescape_spec(t: Seq<char>) -> Seq<char>
    decreases t.len(),
{
    if t.len() == 0 {
        Seq::empty()
    } else if t.len() >= 5 && t.take(5) == seq!['&', 'a', 'm', 'p', ';'] {
        seq!['&'] + unescape_spec(t.skip(5))
    } else if t.len() >= 6 && t.take(6) == seq!['&', 'q', 'u', 'o', 't', ';'] {
        seq!['"'] + unescape_spec(t.skip(6))
    } else if t.len() >= 6 && t.take(6) == seq!['&', 'a', 'p', 'o', 's', ';'] {
        seq!['\''] + unescape_spec(t.skip(6))
    } else if t.len() >= 4 && t.take(4) == seq!['&', 'l', 't', ';'] {
        seq!['<'] + unescape_spec(t.skip(4))
    } else if t.len() >= 4 && t.take(4) == seq!['&', 'g', 't', ';'] {
        seq!['>'] + unescape_spec(t.skip(4))
    } else {
        seq![t[0]] + unescape_spec(t.drop_first())
    }
}

proof fn lemma_unescape_chunk(chunk: Seq<char>, rest: Seq<char>, c: char)
    requires
        chunk == attr_entity(c),
    ensures
        unescape_spec(chunk + rest) == seq![c] + unescape_spec(rest),
{
    let t = chunk + rest;
    if c == '&' {
        assert(t.take(5) =~= chunk);
        assert(t.skip(5) =~= rest);
    } else if c == '"' {
        assert(t.take(5) != seq!['&', 'a', 'm', 'p', ';']) by {
            assert(t.take(5)[1] == 'q');
        }
        assert(t.take(6) =~= chunk);
        assert(t.skip(6) =~= rest);
    } else if c == '\'' {
        assert(t.take(5) != seq!['&', 'a', 'm', 'p', ';']) by {
            assert(t.take(5)[3] == 'o');
        }
        assert(t.take(6) != seq!['&', 'q', 'u', 'o', 't', ';']) by {
            assert(t.take(6)[1] == 'a');
        }
        assert(t.take(6) =~= chunk);
        assert(t.skip(6) =~= rest);
    } else if c == '<' {
        if t.len() >= 5 {
            assert(t.take(5) != seq!['&', 'a', 'm', 'p', ';']) by {
                assert(t.take(5)[1] == 'l');
            }
        }
        if t.len() >= 6 {
            assert(t.take(6) != seq!['&', 'q', 'u', 'o', 't', ';']) by {
                assert(t.take(6)[1] == 'l');
            }
            assert(t.take(6) != seq!['&', 'a', 'p', 'o', 's', ';']) by {
                assert(t.take(6)[1] == 'l');
            }
        }
        assert(t.take(4) =~= chunk);
        assert(t.skip(4) =~= rest);
    } else if c == '>' {
        if t.len() >= 5 {
            assert(t.take(5) != seq!['&', 'a', 'm', 'p', ';']) by {
                assert(t.take(5)[1] == 'g');
            }
        }
        if t.len() >= 6 {
            assert(t.take(6) != seq!['&', 'q', 'u', 'o', 't', ';']) by {
                assert(t.take(6)[1] == 'g');
            }
            assert(t.take(6) != seq!['&', 'a', 'p', 'o', 's', ';']) by {
                assert(t.take(6)[1] == 'g');
            }
        }
        assert(t.take(4) != seq!['&', 'l', 't', ';']) by {
            assert(t.take(4)[1] == 'g');
        }
        assert(t.take(4) =~= chunk);
        assert(t.skip(4) =~= rest);
    } else {
        assert(t[0] == c);
        if t.len() >= 5 {
            assert(t.take(5)[0] == c);
        }
        if t.len() >= 6 {
            assert(t.take(6)[0] == c);
        }
        if t.len() >= 4 {
            assert(t.take(4)[0] == c);
        }
        assert(t.drop_first() =~= rest);
    }
}

/// Law: escaped attribute text reads back as the string it came from, so
/// escaping loses nothing.
pub proof fn lemma_escape_attr_round_trip(s: Seq<char>)
    ensures
        unescape_spec(escape_attr_spec(s)) == s,
    decreases s.len(),
{
    if s.len() > 0 {
        lemma_escape_attr_round_trip(s.drop_first());
        lemma_unescape_chunk(attr_entity(s[0]), escape_attr_spec(s.drop_first()), s[0]);
        assert(seq![s[0]] + s.drop_first() =~= s);
    }
}

/// Law: escaped text reads back as the string it came from.
pub proof fn lemma_escape_text_round_trip(s: Seq<char>)
    ensures
        unescape_spec(escape_text_spec(s)) == s,
    decreases s.len(),
{
    if s.len() > 0 {
        lemma_escape_text_round_trip(s.drop_first());
        let c = s[0];
        if c == '"' || c == '\'' {
            // Quotes pass through text escaping unchanged.
            let t = seq![c] + escape_text_spec(s.drop_first());
            assert(t[0] == c);
            if t.len() >= 5 {
                assert(t.take(5)[0] == c);
            }
            if t.len() >= 6 {
                assert(t.take(6)[0] == c);
            }
            if t.len() >= 4 {
                assert(t.take(4)[0] == c);
            }
            assert(t.drop_first() =~= escape_text_spec(s.drop_first()));
        } else {
            lemma_unescape_chunk(text_entity(c), escape_text_spec(s.drop_first()), c);
        }
        assert(seq![s[0]] + s.drop_first() =~= s);
    }
}

/// Reading escaped text content back: `&amp;`, `&lt;` and `&gt;` become their
/// characters again, left to right; everything else is kept.
pub open spec fn unescape_text_spec(t: Seq<char>) -> Seq<char>
    decreases t.len(),
{
    if t.len() == 0 {
        Seq::empty()
    } else if t.len() >= 5 && t.take(5) == seq!['&', 'a', 'm', 'p', ';'] {
        seq!['&'] + unescape_text_spec(t.skip(5))
    } else if t.len() >= 4 && t.take(4) == seq!['&', 'l', 't', ';'] {
        seq!['<'] + unescape_text_spec(t.skip(4))
    } else if t.len() >= 4 && t.take(4) == seq!['&', 'g', 't', ';'] {
        seq!['>'] + unescape_text_spec(t.skip(4))
    } else {
        seq![t[0]] + unescape_text_spec(t.drop_first())
    }
}

/// Whether position `k` of `t` begins `&amp;`, `&lt;` or `&gt;`.
pub open spec fn starts_text_entity(t: Seq<char>, k: int) -> bool {
    ||| k + 5 <= t.len() && t.subrange(k, k + 5) == seq!['&', 'a', 'm', 'p', ';']
    ||| k + 4 <= t.len() && t.subrange(k, k + 4) == seq!['&', 'l', 't', ';']
    ||| k + 4 <= t.len() && t.subrange(k, k + 4) == seq!['&', 'g', 't', ';']
}

proof fn lemma_unescape_text_chunk(rest: Seq<char>, c: char)
    ensures
        unescape_text_spec(text_entity(c) + rest) == seq![c] + unescape_text_spec(rest),
{
    let chunk = text_entity(c);
    let t = chunk + rest;
    if c == '&' {
        assert(t.take(5) =~= chunk);
        assert(t.skip(5) =~= rest);
    } else if c == '<' {
        if t.len() >= 5 {
            assert(t.take(5) != seq!['&', 'a', 'm', 'p', ';']) by {
                assert(t.take(5)[1] == 'l');
            }
        }
        assert(t.take(4) =~= chunk);
        assert(t.skip(4) =~= rest);
    } else if c == '>' {
        if t.len() >= 5 {
            assert(t.take(5) != seq!['&', 'a', 'm', 'p', ';']) by {
                assert(t.take(5)[1] == 'g');
            }
        }
        assert(t.take(4) != seq!['&', 'l', 't', ';']) by {
            assert(t.take(4)[1] == 'g');
        }
        assert(t.take(4) =~= chunk);
        assert(t.skip(4) =~= rest);
    } else {
        assert(t[0] == c);
        if t.len() >= 5 {
            assert(t.take(5)[0] == c);
        }
        if t.len() >= 4 {
            assert(t.take(4)[0] == c);
        }
        assert(t.drop_first() =~= rest);
    }
}

proof fn lemma_entity_shift(a: Seq<char>, b: Seq<char>, k: int)
    requires
        0 <= k,
        starts_text_entity(b, k),
    ensures
        starts_text_entity(a + b, k + a.len()),
{
    let t = a + b;
    let j = k + a.len();
    if k + 5 <= b.len() {
        assert(t.subrange(j, j + 5) =~= b.subrange(k, k + 5));
    }
    if k + 4 <= b.len() {
        assert(t.subrange(j, j + 4) =~= b.subrange(k, k + 4));
    }
}

/// Law: in escaped text content every `&` begins `&amp;`, `&lt;` or `&gt;`,
/// and decoding those three entities left to right gives back the text, so
/// an entity already in the input is escaped again (`&lt;` becomes `&amp;lt;`).
pub proof fn lemma_escape_text_entities(s: Seq<char>)
    ensures
        forall|k: int|
            0 <= k < escape_text_spec(s).len() && #[trigger] escape_text_spec(s)[k] == '&' ==> starts_text_entity(
                escape_text_spec(s),
                k,
            ),
        unescape_text_spec(escape_text_spec(s)) == s,
    decreases s.len(),
{
    if s.len() > 0 {
        let c = s[0];
        let a = text_entity(c);
        let b = escape_text_spec(s.drop_first());
        lemma_escape_text_entities(s.drop_first());
        let t = escape_text_spec(s);
        assert(t == a + b);
        assert forall|k: int| 0 <= k < t.len() && #[trigger] t[k] == '&' implies starts_text_entity(t, k) by {
            if k >= a.len() {
                assert(t[k] == b[k - a.len()]);
                lemma_entity_shift(a, b, k - a.len());
            } else {
                assert(k == 0 && c == '&' || k == 0 && c == '<' || k == 0 && c == '>');
                if c == '&' {
                    assert(t.subrange(0, 5) =~= a);
                } else {
                    assert(t.subrange(0, 4) =~= a);
                }
            }
        }
        lemma_unescape_text_chunk(b, c);
        assert(seq![c] + s.drop_first() =~= s);
    }
}

/// Law: escaped text contains no `<` or `>`, and escaped attribute values
/// additionally contain no quotes.
pub proof fn lemma_escaped_is_markup_free(s: Seq<char>)
    ensures
        !escape_text_spec(s).contains('<'),
        !escape_text_spec(s).contains('>'),
        !escape_attr_spec(s).contains('<'),
        !escape_attr_spec(s).contains('>'),
        !escape_attr_spec(s).contains('"'),
        !escape_attr_spec(s).contains('\''),
    decreases s.len(),
{
    if s.len() > 0 {
        lemma_escaped_is_markup_free(s.drop_first());
        let c = s[0];
        let a = text_entity(c);
        let b = escape_text_spec(s.drop_first());
        assert forall|k: int| 0 <= k < (a + b).len() implies (a + b)[k] != '<' && (a + b)[k] != '>' by {
            if k >= a.len() {
                assert((a + b)[k] == b[k - a.len()]);
            }
        }
        let a2 = attr_entity(c);
        let b2 = escape_attr_spec(s.drop_first());
        assert forall|k: int| 0 <= k < (a2 + b2).len() implies (a2 + b2)[k] != '<' && (a2 + b2)[k] != '>'
            && (a2 + b2)[k] != '"' && (a2 + b2)[k] != '\'' by {
            if k >= a2.len() {
                assert((a2 + b2)[k] == b2[k - a2.len()]);
            }
        }
    }
}

/// The `text-anchor` attribute value of an anchor.
pub fn anchor_name(anchor: TextAnchor) -> (s: &'static str)
    ensures
        s@ == match anchor {
            TextAnchor::Start => "start"@,
            TextAnchor::Middle => "middle"@,
            TextAnchor::End => "end"@,
        },
{
    match anchor {
        TextAnchor::Start => "start",
        TextAnchor::Middle => "middle",
        TextAnchor::End => "end",
    }
}

/// The `font-weight` attribute value of a weight.
pub fn weight_value(weight: TextWeight) -> (s: &'static str)
    ensures
        s@ == match weight {
            TextWeight::Normal => "400"@,
            TextWeight::Bold => "650"@,
        },
{
    match weight {
        TextWeight::Normal => "400",
        TextWeight::Bold => "650",
    }
}

} // verus!
