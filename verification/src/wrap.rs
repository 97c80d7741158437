//! Soft wrapping of chat text to a column width.
use vstd::prelude::*;
use crate::text::{chars_of, string_push};

verus! {

/// The width a wrap uses: the given width, or one column when it is zero.
pub open spec fn effective_width(width: u16) -> nat {
    if width == 0 { 1 } else { width as nat }
}

/// `s` cut into pieces of `w` characters, with a line break between consecutive pieces.
pub open spec fn break_every(s: Seq<char>, w: nat) -> Seq<char>
    decreases s.len(),
{
    if w == 0 || s.len() <= w {
        s
    } else {
        s.take(w as int) + seq!['\n'] + break_every(s.skip(w as int), w)
    }
}

/// Number of characters after the last line break of `s` (all of `s` when it has none).
pub open spec fn trailing_line_len(s: Seq<char>) -> nat
    decreases s.len(),
{
    if s.len() == 0 {
        0
    } else if s.last() == '\n' {
        0
    } else {
        trailing_line_len(s.drop_last()) + 1
    }
}

pub proof fn lemma_trailing_line_len(s: Seq<char>)
    ensures
        trailing_line_len(s) <= s.len(),
        trailing_line_len(s) < s.len() ==> s[s.len() - trailing_line_len(s) - 1] == '\n',
        forall|i: int| s.len() - trailing_line_len(s) <= i < s.len() ==> s[i] != '\n',
    decreases s.len(),
{
    if s.len() > 0 && s.last() != '\n' {
        lemma_trailing_line_len(s.drop_last());
        assert forall|i: int| s.len() - trailing_line_len(s) <= i < s.len() implies s[i] != '\n' by {
            if i < s.len() - 1 {
                assert(s.drop_last()[i] == s[i]);
            }
        }
    }
}

/// Remainders step by one and wrap around at `w`.
proof fn lemma_mod_succ(a: int, w: int)
    requires
        0 <= a,
        0 < w,
    ensures
        0 <= a % w < w,
        (a + 1) % w == (if a % w == w - 1 { 0 } else { a % w + 1 }),
{
    vstd::arithmetic::div_mod::lemma_fundamental_div_mod(a, w);
    vstd::arithmetic::div_mod::lemma_mod_pos_bound(a, w);
    let q = a / w;
    let r = a % w;
    if r == w - 1 {
        assert(a + 1 == (q + 1) * w + 0) by (nonlinear_arith)
            requires
                a == w * q + r,
                r == w - 1,
        ;
        vstd::arithmetic::div_mod::lemma_fundamental_div_mod_converse(a + 1, w, q + 1, 0);
    } else {
        assert(a + 1 == q * w + (r + 1)) by (nonlinear_arith)
            requires
                a == w * q + r,
        ;
        vstd::arithmetic::div_mod::lemma_fundamental_div_mod_converse(a + 1, w, q, r + 1);
    }
}

/// `s` with each of its lines (the text between line breaks) cut into pieces of `w`
/// characters; the original line breaks stay where they are.
pub open spec fn wrap_lines(s: Seq<char>, w: nat) -> Seq<char>
    decreases s.len(),
{
    let tail = trailing_line_len(s);
    if tail >= s.len() {
        break_every(s, w)
    } else {
        wrap_lines(s.take(s.len() - tail - 1), w) + seq!['\n'] + break_every(
            s.skip(s.len() - tail),
            w,
        )
    }
}

proof fn lemma_break_every_push(s: Seq<char>, w: nat, c: char)
    requires
        w > 0,
    ensures
        break_every(s.push(c), w) == break_every(s, w) + (if s.len() > 0 && (s.len() as int) % (w as int)
            == 0 {
            seq!['\n', c]
        } else {
            seq![c]
        }),
    decreases s.len(),
{
    let n = s.len();
    if n + 1 <= w {
        vstd::arithmetic::div_mod::lemma_small_mod(n, w);
    } else if n == w {
        assert(s.push(c).take(w as int) == s);
        assert(s.push(c).skip(w as int) == seq![c]);
        assert(break_every(seq![c], w) == seq![c]);
        assert(break_every(s.push(c), w) == s.push(c).take(w as int) + seq!['\n'] + break_every(s.push(c).skip(w as int), w));
        assert(s + seq!['\n'] + seq![c] =~= s + seq!['\n', c]);
        vstd::arithmetic::div_mod::lemma_mod_self_0(w as int);
    } else {
        assert(s.push(c).take(w as int) == s.take(w as int));
        assert(s.push(c).skip(w as int) == s.skip(w as int).push(c));
        lemma_break_every_push(s.skip(w as int), w, c);
        let m = (n - w) as int;
        vstd::arithmetic::div_mod::lemma_mod_sub_multiples_vanish(n as int, w as int);
        assert(m % (w as int) == (n as int) % (w as int));
        let head = s.take(w as int) + seq!['\n'];
        let rest = break_every(s.skip(w as int), w);
        let extra = if s.len() > 0 && (s.len() as int) % (w as int) == 0 {
            seq!['\n', c]
        } else {
            seq![c]
        };
        assert(break_every(s.push(c), w) == head + (rest + extra));
        assert(head + (rest + extra) =~= (head + rest) + extra);
    }
}

proof fn lemma_wrap_lines_push(s: Seq<char>, w: nat, c: char)
    requires
        w > 0,
    ensures
        wrap_lines(s.push(c), w) == wrap_lines(s, w) + (if c == '\n' {
            seq!['\n']
        } else if trailing_line_len(s) > 0 && (trailing_line_len(s) as int) % (w as int) == 0 {
            seq!['\n', c]
        } else {
            seq![c]
        }),
{
    let t = s.push(c);
    let tail = trailing_line_len(s);
    lemma_trailing_line_len(s);
    if c == '\n' {
        assert(trailing_line_len(t) == 0);
        assert(t.take(t.len() - 1) == s);
        assert(t.skip(t.len() as int) =~= Seq::<char>::empty());
    } else {
        assert(t.drop_last() == s);
        assert(trailing_line_len(t) == tail + 1);
        if tail >= s.len() {
            assert(tail == s.len());
            lemma_break_every_push(s, w, c);
        } else {
            assert(t.take(t.len() - (tail + 1) - 1) == s.take(s.len() - tail - 1));
            assert(t.skip(t.len() - (tail + 1)) == s.skip(s.len() - tail).push(c));
            lemma_break_every_push(s.skip(s.len() - tail), w, c);
        }
    }
}

/// `s` without its line breaks.
pub open spec fn without_breaks(s: Seq<char>) -> Seq<char>
    decreases s.len(),
{
    if s.len() == 0 {
        s
    } else if s.last() == '\n' {
        without_breaks(s.drop_last())
    } else {
        without_breaks(s.drop_last()).push(s.last())
    }
}

/// Every line of `s` (every stretch between line breaks) has at most `w` characters.
pub open spec fn lines_fit(s: Seq<char>, w: nat) -> bool {
    forall|i: int| 0 <= i <= s.len() ==> trailing_line_len(#[trigger] s.take(i)) <= w
}

proof fn lemma_without_breaks_append(a: Seq<char>, b: Seq<char>)
    ensures
        without_breaks(a + b) == without_breaks(a) + without_breaks(b),
    decreases b.len(),
{
    if b.len() == 0 {
        assert(a + b == a);
        assert(without_breaks(b) =~= Seq::<char>::empty());
        assert(without_breaks(a) + without_breaks(b) =~= without_breaks(a));
    } else {
        lemma_without_breaks_append(a, b.drop_last());
        assert((a + b).drop_last() == a + b.drop_last());
        assert((a + b).last() == b.last());
        if b.last() != '\n' {
            assert(without_breaks(a) + without_breaks(b.drop_last()).push(b.last()) =~= (without_breaks(a)
                + without_breaks(b.drop_last())).push(b.last()));
        }
    }
}

proof fn lemma_without_breaks_single(c: char)
    ensures
        without_breaks(seq![c]) == (if c == '\n' { Seq::<char>::empty() } else { seq![c] }),
{
    let e = Seq::<char>::empty();
    assert(seq![c].drop_last() =~= e);
    assert(without_breaks(e) == e);
    assert(e.push(c) =~= seq![c]);
}

proof fn lemma_lines_fit_extend(t: Seq<char>, extra: Seq<char>, w: nat)
    requires
        lines_fit(t, w),
        forall|k: int|
            0 < k <= extra.len() ==> trailing_line_len(#[trigger] (t + extra).take(t.len() + k)) <= w,
    ensures
        lines_fit(t + extra, w),
{
    let r = t + extra;
    assert forall|i: int| 0 <= i <= r.len() implies trailing_line_len(#[trigger] r.take(i)) <= w by {
        if i <= t.len() {
            assert(r.take(i) == t.take(i));
        } else {
            assert(r.take(t.len() + (i - t.len())) == r.take(i));
        }
    }
}

proof fn lemma_trailing_push(s: Seq<char>, c: char)
    ensures
        trailing_line_len(s.push(c)) == if c == '\n' { 0 } else { trailing_line_len(s) + 1 },
{
    assert(s.push(c).drop_last() == s);
}

proof fn lemma_wrap_lines_facts(s: Seq<char>, w: nat)
    requires
        w > 0,
    ensures
        lines_fit(wrap_lines(s, w), w),
        without_breaks(wrap_lines(s, w)) == without_breaks(s),
        trailing_line_len(wrap_lines(s, w)) == (if trailing_line_len(s) == 0 {
            0
        } else {
            (trailing_line_len(s) - 1) % (w as int) + 1
        }),
    decreases s.len(),
{
    if s.len() == 0 {
        assert(wrap_lines(s, w) == s);
        assert forall|i: int| 0 <= i <= s.len() implies trailing_line_len(#[trigger] s.take(i)) <= w by {
            assert(s.take(i).len() == 0);
        }
    } else {
        let d = s.drop_last();
        let c = s.last();
        assert(d.push(c) == s);
        lemma_wrap_lines_facts(d, w);
        lemma_wrap_lines_push(d, w, c);
        let out = wrap_lines(d, w);
        let tail = trailing_line_len(d);
        let extra = if c == '\n' {
            seq!['\n']
        } else if tail > 0 && (tail as int) % (w as int) == 0 {
            seq!['\n', c]
        } else {
            seq![c]
        };
        assert(wrap_lines(s, w) == out + extra);
        lemma_without_breaks_append(out, extra);
        lemma_trailing_push(d, c);
        if tail > 0 {
            lemma_mod_succ(tail - 1, w as int);
        }
        lemma_mod_succ(tail as int, w as int);
        if tail == 0 {
            vstd::arithmetic::div_mod::lemma_small_mod(0, w);
        }
        let col = trailing_line_len(out);
        if c == '\n' {
            lemma_without_breaks_single('\n');
            assert(without_breaks(s) == without_breaks(d));
            assert((out + extra).take(out.len() as int + 1) == out.push('\n'));
            lemma_trailing_push(out, '\n');
            assert(out + extra == out.push('\n'));
        } else if tail > 0 && (tail as int) % (w as int) == 0 {
            assert(extra.drop_last() == seq!['\n']);
            lemma_without_breaks_single('\n');
            assert(without_breaks(extra) =~= seq![c]);
            assert((out + extra).take(out.len() as int + 1) == out.push('\n'));
            assert((out + extra).take(out.len() as int + 2) == out.push('\n').push(c));
            lemma_trailing_push(out, '\n');
            lemma_trailing_push(out.push('\n'), c);
            assert(out + extra == out.push('\n').push(c));
        } else {
            lemma_without_breaks_single(c);
            assert((out + extra).take(out.len() as int + 1) == out.push(c));
            lemma_trailing_push(out, c);
            assert(out + extra == out.push(c));
        }
        assert(without_breaks(s) == without_breaks(d).push(c) || c == '\n');
        lemma_lines_fit_extend(out, extra, w);
    }
}

/// Wrapping a message only breaks lines: with the line breaks taken out, the wrapped
/// message is the message; and no line of it is longer than the width.
pub proof fn law_wrap_text_fits(text: Seq<char>, width: u16)
    ensures
        without_breaks(wrap_lines(text, effective_width(width))) == without_breaks(text),
        lines_fit(wrap_lines(text, effective_width(width)), effective_width(width)),
{
    lemma_wrap_lines_facts(text, effective_width(width));
}

/// Wrapping a message only breaks lines: with the line breaks taken out, the wrapped
/// message is the message; and no line of it is longer than the width.
pub proof fn law_wrap_input_fits(input: Seq<char>, width: u16)
    ensures
        without_breaks(break_every(input, effective_width(width))) == without_breaks(input),
        (forall|i: int| 0 <= i < input.len() ==> input[i] != '\n') ==> lines_fit(
            break_every(input, effective_width(width)),
            effective_width(width),
        ),
{
    let w = effective_width(width);
    lemma_break_every_facts(input, w);
    lemma_wrap_lines_facts(input, w);
}

/// On text without line breaks the two wrappings agree: the typed message is wrapped just
/// as chat text of the same width is.
pub proof fn law_wrap_input_is_wrap_text(input: Seq<char>, width: u16)
    requires
        forall|i: int| 0 <= i < input.len() ==> input[i] != '\n',
    ensures
        break_every(input, effective_width(width)) == wrap_lines(input, effective_width(width)),
{
    lemma_break_every_facts(input, effective_width(width));
}

proof fn lemma_break_every_facts(s: Seq<char>, w: nat)
    requires
        w > 0,
    ensures
        without_breaks(break_every(s, w)) == without_breaks(s),
        (forall|i: int| 0 <= i < s.len() ==> s[i] != '\n') ==> wrap_lines(s, w) == break_every(s, w),
    decreases s.len(),
{
    if s.len() > 0 {
        let d = s.drop_last();
        let c = s.last();
        assert(d.push(c) == s);
        lemma_break_every_facts(d, w);
        lemma_break_every_push(d, w, c);
        let extra = if d.len() > 0 && (d.len() as int) % (w as int) == 0 {
            seq!['\n', c]
        } else {
            seq![c]
        };
        lemma_without_breaks_append(break_every(d, w), extra);
        lemma_without_breaks_single('\n');
        lemma_without_breaks_single(c);
        if d.len() > 0 && (d.len() as int) % (w as int) == 0 {
            assert(extra == seq!['\n'] + seq![c]);
            lemma_without_breaks_append(seq!['\n'], seq![c]);
        }
        if forall|i: int| 0 <= i < s.len() ==> s[i] != '\n' {
            assert forall|i: int| 0 <= i < d.len() implies d[i] != '\n' by {
                assert(d[i] == s[i]);
            }
            lemma_no_breaks_trailing(d);
            lemma_wrap_lines_push(d, w, c);
        }
    } else {
        assert(break_every(s, w) == s);
        assert(wrap_lines(s, w) == break_every(s, w));
    }
}

proof fn lemma_no_breaks_trailing(s: Seq<char>)
    requires
        forall|i: int| 0 <= i < s.len() ==> s[i] != '\n',
    ensures
        trailing_line_len(s) == s.len(),
    decreases s.len(),
{
    if s.len() > 0 {
        assert forall|i: int| 0 <= i < s.drop_last().len() implies s.drop_last()[i] != '\n' by {
            assert(s.drop_last()[i] == s[i]);
        }
        lemma_no_breaks_trailing(s.drop_last());
    }
}

/// Wraps the message being typed: a line break goes before every `width`-th character
/// (a width of zero counts as one).
pub fn wrap_input(input: &str, width: u16) -> (wrapped: String)
    ensures
        wrapped@ == break_every(input@, effective_width(width)),
{
    let w: usize = if width == 0 { 1 } else { width as usize };
    let chars = chars_of(input);
    let mut wrapped = String::new();
    let mut i: usize = 0;
    while i < chars.len()
        invariant
            chars@ == input@,
            w == effective_width(width),
            i <= chars.len(),
            wrapped@ == break_every(chars@.take(i as int), w as nat),
        decreases chars.len() - i,
    {
        let c = chars[i];
        proof {
            assert(chars@.take(i + 1) == chars@.take(i as int).push(c));
            lemma_break_every_push(chars@.take(i as int), w as nat, c);
        }
        if i > 0 && i % w == 0 {
            string_push(&mut wrapped, '\n');
        }
        string_push(&mut wrapped, c);
        i = i + 1;
    }
    assert(chars@.take(i as int) == chars@);
    wrapped
}

/// Wraps one chat message: every line of it is broken into pieces of `width` characters
/// (a width of zero counts as one).
pub fn wrap_text(text: &str, width: u16) -> (wrapped: String)
    ensures
        wrapped@ == wrap_lines(text@, effective_width(width)),
{
    let w: usize = if width == 0 { 1 } else { width as usize };
    let chars = chars_of(text);
    let mut wrapped = String::new();
    let mut column: usize = 0;
    let mut i: usize = 0;
    while i < chars.len()
        invariant
            chars@ == text@,
            w == effective_width(width),
            i <= chars.len(),
            wrapped@ == wrap_lines(chars@.take(i as int), w as nat),
            column <= w,
            column == (if trailing_line_len(chars@.take(i as int)) == 0 {
                0
            } else {
                (trailing_line_len(chars@.take(i as int)) - 1) % (w as int) + 1
            }),
        decreases chars.len() - i,
    {
        let c = chars[i];
        let ghost prefix = chars@.take(i as int);
        let ghost tail = trailing_line_len(prefix);
        proof {
            assert(chars@.take(i + 1) == prefix.push(c));
            assert(prefix.push(c).drop_last() == prefix);
            lemma_wrap_lines_push(prefix, w as nat, c);
        }
        if c == '\n' {
            string_push(&mut wrapped, c);
            column = 0;
        } else {
            proof {
                if tail > 0 {
                    lemma_mod_succ(tail - 1, w as int);
                }
            }
            if column >= w {
                string_push(&mut wrapped, '\n');
                column = 0;
            }
            string_push(&mut wrapped, c);
            column = column + 1;
            proof {
                assert(trailing_line_len(prefix.push(c)) == tail + 1);
                lemma_mod_succ(tail as int, w as int);
                if tail == 0 {
                    vstd::arithmetic::div_mod::lemma_small_mod(0, w as nat);
                }
            }
        }
        i = i + 1;
    }
    assert(chars@.take(i as int) == chars@);
    wrapped
}

/// The texts of `parts`, one after the other, with a line break between neighbours.
pub open spec fn join_lines(parts: Seq<Seq<char>>) -> Seq<char>
    decreases parts.len(),
{
    if parts.len() == 0 {
        Seq::empty()
    } else if parts.len() == 1 {
        parts[0]
    } else {
        join_lines(parts.drop_last()) + seq!['\n'] + parts.last()
    }
}

/// Each message wrapped on its own.
pub open spec fn wrapped_messages(messages: Seq<String>, w: nat) -> Seq<Seq<char>> {
    Seq::new(messages.len(), |i: int| wrap_lines(messages[i]@, w))
}

/// Wraps every chat message to `width` columns and puts the messages one per line.
pub fn wrap_chat_messages(messages: &[String], width: u16) -> (text: String)
    ensures
        text@ == join_lines(wrapped_messages(messages@, effective_width(width))),
{
    let ghost w = effective_width(width);
    let mut text = String::new();
    let mut i: usize = 0;
    while i < messages.len()
        invariant
            i <= messages@.len(),
            w == effective_width(width),
            text@ == join_lines(wrapped_messages(messages@, w).take(i as int)),
        decreases messages.len() - i,
    {
        let part = wrap_text(messages[i].as_str(), width);
        let ghost parts = wrapped_messages(messages@, w);
        assert(parts.take(i + 1).drop_last() == parts.take(i as int));
        if i > 0 {
            text.append("\n");
            proof {
                reveal_strlit("\n");
            }
        } else {
            assert(parts.take(0) =~= Seq::<Seq<char>>::empty());
        }
        text.append(part.as_str());
        i = i + 1;
    }
    assert(wrapped_messages(messages@, w).take(i as int) == wrapped_messages(messages@, w));
    text
}

} // verus!
