//! Greedy word wrapping for card text: whitespace-delimited words are packed
//! onto lines so that a word and its separating space never push a line past
//! the given width, lines are joined by newlines, and double-quote characters
//! (artifacts of quoted source fields) are stripped from the result.

use vstd::prelude::*;
use vstd::string::StrSliceExecFns;

verus! {

/// `c` has the Unicode `White_Space` property: the separators that
/// whitespace splitting recognizes.
pub open spec fn is_wsp(c: char) -> bool {
    let u = c as u32;
    ||| u == 0x09
    ||| u == 0x0A
    ||| u == 0x0B
    ||| u == 0x0C
    ||| u == 0x0D
    ||| u == 0x20
    ||| u == 0x85
    ||| u == 0xA0
    ||| u == 0x1680
    ||| (0x2000 <= u && u <= 0x200A)
    ||| u == 0x2028
    ||| u == 0x2029
    ||| u == 0x202F
    ||| u == 0x205F
    ||| u == 0x3000
}

/// Whether `c` has the Unicode `White_Space` property.
fn is_wsp_char(c: char) -> (r: bool)
    ensures
        r == is_wsp(c),
{
    let u = c as u32;
    u == 0x09 || u == 0x0A || u == 0x0B || u == 0x0C || u == 0x0D || u == 0x20 || u == 0x85
        || u == 0xA0 || u == 0x1680 || (0x2000 <= u && u <= 0x200A) || u == 0x2028 || u == 0x2029
        || u == 0x202F || u == 0x205F || u == 0x3000
}

/// The whitespace-delimited words still to be emitted from `s`, given the
/// partial word `cur` gathered just before `s`.
pub open spec fn split_acc(s: Seq<char>, cur: Seq<char>) -> Seq<Seq<char>>
    decreases s.len(),
{
    if s.len() == 0 {
        if cur.len() == 0 {
            Seq::empty()
        } else {
            seq![cur]
        }
    } else if is_wsp(s[0]) {
        if cur.len() == 0 {
            split_acc(s.drop_first(), Seq::empty())
        } else {
            seq![cur] + split_acc(s.drop_first(), Seq::empty())
        }
    } else {
        split_acc(s.drop_first(), cur.push(s[0]))
    }
}

/// The whitespace-delimited words of `s`, in order.
pub open spec fn split_words_spec(s: Seq<char>) -> Seq<Seq<char>> {
    split_acc(s, Seq::empty())
}

/// Greedy packing of `words` into lines, where `ll` is the length of the line
/// begun so far: a word whose length plus one separating space no longer fits
/// within `width` starts a new line; otherwise it is appended after a space
/// (or bare, at the start of the text).
pub open spec fn wrap_from(words: Seq<Seq<char>>, width: int, ll: int) -> Seq<char>
    decreases words.len(),
{
    if words.len() == 0 {
        Seq::empty()
    } else {
        let w = words[0];
        let rest = words.drop_first();
        if ll + w.len() + 1 > width {
            seq!['\n'] + w + wrap_from(rest, width, w.len() as int)
        } else if ll > 0 {
            seq![' '] + w + wrap_from(rest, width, ll + 1 + w.len())
        } else {
            w + wrap_from(rest, width, w.len() as int)
        }
    }
}

/// `s` with every double-quote character removed.
pub open spec fn strip_quotes(s: Seq<char>) -> Seq<char>
    decreases s.len(),
{
    if s.len() == 0 {
        Seq::empty()
    } else if s[0] == '"' {
        strip_quotes(s.drop_first())
    } else {
        seq![s[0]] + strip_quotes(s.drop_first())
    }
}

/// No double quote survives stripping.
pub proof fn lemma_strip_quotes_no_quote(s: Seq<char>)
    ensures
        forall|i: int| 0 <= i < strip_quotes(s).len() ==> strip_quotes(s)[i] != '"',
    decreases s.len(),
{
    if s.len() > 0 {
        lemma_strip_quotes_no_quote(s.drop_first());
        if s[0] != '"' {
            assert forall|i: int|
                0 <= i < strip_quotes(s).len() implies strip_quotes(s)[i] != '"' by {
                if i > 0 {
                    assert(strip_quotes(s)[i] == strip_quotes(s.drop_first())[i - 1]);
                }
            }
        }
    }
}

/// The wrapped form of `s`: its words packed greedily into lines of width
/// `width`, joined by newlines, with double quotes then stripped.
pub open spec fn wrapped_text(s: Seq<char>, width: int) -> Seq<char> {
    strip_quotes(wrap_from(split_words_spec(s), width, 0))
}

/// Reading `s` as the continuation of a line already `ll` characters long,
/// no line ever grows past `width` characters.
pub open spec fn line_lengths_ok(s: Seq<char>, width: int, ll: int) -> bool
    decreases s.len(),
{
    &&& ll <= width
    &&& if s.len() == 0 {
        true
    } else if s[0] == '\n' {
        line_lengths_ok(s.drop_first(), width, 0)
    } else {
        line_lengths_ok(s.drop_first(), width, ll + 1)
    }
}

/// `w` holds no whitespace character.
pub open spec fn word_free_of_wsp(w: Seq<char>) -> bool {
    forall|j: int| 0 <= j < w.len() ==> !is_wsp(w[j])
}

proof fn lemma_lines_ok_append_word(w: Seq<char>, tail: Seq<char>, width: int, ll: int)
    requires
        forall|j: int| 0 <= j < w.len() ==> w[j] != '\n',
        0 <= ll,
        ll + w.len() <= width,
        line_lengths_ok(tail, width, ll + w.len()),
    ensures
        line_lengths_ok(w + tail, width, ll),
    decreases w.len(),
{
    if w.len() == 0 {
        assert(w + tail =~= tail);
    } else {
        assert((w + tail)[0] == w[0]);
        assert((w + tail).drop_first() =~= w.drop_first() + tail);
        lemma_lines_ok_append_word(w.drop_first(), tail, width, ll + 1);
    }
}

proof fn lemma_lines_ok_monotone(s: Seq<char>, width: int, ll1: int, ll2: int)
    requires
        line_lengths_ok(s, width, ll1),
        ll2 <= ll1,
    ensures
        line_lengths_ok(s, width, ll2),
    decreases s.len(),
{
    if s.len() > 0 && s[0] != '\n' {
        lemma_lines_ok_monotone(s.drop_first(), width, ll1 + 1, ll2 + 1);
    }
}

proof fn lemma_lines_ok_strip(s: Seq<char>, width: int, ll: int)
    requires
        0 <= ll,
        line_lengths_ok(s, width, ll),
    ensures
        line_lengths_ok(strip_quotes(s), width, ll),
    decreases s.len(),
{
    if s.len() == 0 {
    } else if s[0] == '"' {
        lemma_lines_ok_monotone(s.drop_first(), width, ll + 1, ll);
        lemma_lines_ok_strip(s.drop_first(), width, ll);
    } else if s[0] == '\n' {
        lemma_lines_ok_strip(s.drop_first(), width, 0);
        assert((seq![s[0]] + strip_quotes(s.drop_first())).drop_first() =~= strip_quotes(
            s.drop_first(),
        ));
    } else {
        lemma_lines_ok_strip(s.drop_first(), width, ll + 1);
        assert((seq![s[0]] + strip_quotes(s.drop_first())).drop_first() =~= strip_quotes(
            s.drop_first(),
        ));
    }
}

proof fn lemma_split_acc_words_wsp_free(s: Seq<char>, cur: Seq<char>)
    requires
        word_free_of_wsp(cur),
    ensures
        forall|k: int|
            0 <= k < split_acc(s, cur).len() ==> word_free_of_wsp(#[trigger] split_acc(s, cur)[k]),
    decreases s.len(),
{
    if s.len() == 0 {
        if cur.len() > 0 {
            assert forall|k: int|
                0 <= k < split_acc(s, cur).len() implies word_free_of_wsp(
                #[trigger] split_acc(s, cur)[k],
            ) by {
                assert(split_acc(s, cur)[k] == cur);
            }
        }
    } else if is_wsp(s[0]) {
        lemma_split_acc_words_wsp_free(s.drop_first(), Seq::empty());
        if cur.len() > 0 {
            assert forall|k: int|
                0 <= k < split_acc(s, cur).len() implies word_free_of_wsp(
                #[trigger] split_acc(s, cur)[k],
            ) by {
                if k > 0 {
                    assert(split_acc(s, cur)[k] == split_acc(s.drop_first(), Seq::empty())[k - 1]);
                }
            }
        }
    } else {
        assert forall|j: int| 0 <= j < cur.push(s[0]).len() implies !is_wsp(cur.push(s[0])[j]) by {
            if j < cur.len() {
                assert(cur.push(s[0])[j] == cur[j]);
            } else {
                assert(cur.push(s[0])[j] == s[0]);
            }
        }
        lemma_split_acc_words_wsp_free(s.drop_first(), cur.push(s[0]));
        assert(split_acc(s, cur) == split_acc(s.drop_first(), cur.push(s[0])));
    }
}

proof fn lemma_wrap_from_lines_ok(words: Seq<Seq<char>>, width: int, ll: int)
    requires
        forall|k: int|
            0 <= k < words.len() ==> (#[trigger] words[k]).len() + 1 <= width && word_free_of_wsp(
                words[k],
            ),
        0 <= ll <= width,
    ensures
        line_lengths_ok(wrap_from(words, width, ll), width, ll),
    decreases words.len(),
{
    if words.len() > 0 {
        let w = words[0];
        let rest = words.drop_first();
        assert(forall|k: int| 0 <= k < rest.len() ==> rest[k] == words[k + 1]);
        assert(forall|j: int| 0 <= j < w.len() ==> w[j] != '\n') by {
            assert(is_wsp('\n'));
        }
        if ll + w.len() + 1 > width {
            let out_rest = wrap_from(rest, width, w.len() as int);
            lemma_wrap_from_lines_ok(rest, width, w.len() as int);
            lemma_lines_ok_append_word(w, out_rest, width, 0);
            assert((seq!['\n'] + w + out_rest).drop_first() =~= w + out_rest);
        } else if ll > 0 {
            let ll2 = ll + 1 + w.len();
            let out_rest = wrap_from(rest, width, ll2);
            lemma_wrap_from_lines_ok(rest, width, ll2);
            lemma_lines_ok_append_word(w, out_rest, width, ll + 1);
            assert((seq![' '] + w + out_rest).drop_first() =~= w + out_rest);
        } else {
            let out_rest = wrap_from(rest, width, w.len() as int);
            lemma_wrap_from_lines_ok(rest, width, w.len() as int);
            lemma_lines_ok_append_word(w, out_rest, width, 0);
        }
    }
}

/// Wrapping stays within the width: when every word of the source fits on a
/// line beside its separating space, no line of the wrapped, quote-stripped
/// text is longer than `width`. (A longer word is emitted whole, on a line of
/// its own that does exceed the width — hence the premise.)
pub proof fn lemma_wrapped_text_within_width(s: Seq<char>, width: int)
    requires
        0 <= width,
        forall|k: int|
            0 <= k < split_words_spec(s).len() ==> (#[trigger] split_words_spec(s)[k]).len() + 1
                <= width,
    ensures
        line_lengths_ok(wrapped_text(s, width), width, 0),
{
    lemma_split_acc_words_wsp_free(s, Seq::empty());
    lemma_wrap_from_lines_ok(split_words_spec(s), width, 0);
    lemma_lines_ok_strip(wrap_from(split_words_spec(s), width, 0), width, 0);
}

/// Relies on `String::push`: appends exactly the one character `c`.
#[verifier::external_body]
fn push_char(s: &mut String, c: char)
    ensures
        final(s)@ == old(s)@.push(c),
{
    s.push(c);
}

/// The characters of `s`, in order.
fn str_to_chars(s: &str) -> (r: Vec<char>)
    ensures
        r@ == s@,
{
    let n = s.unicode_len();
    let mut r: Vec<char> = Vec::new();
    let mut i: usize = 0;
    while i < n
        invariant
            i <= n,
            n == s@.len(),
            r@ == s@.subrange(0, i as int),
        decreases n - i,
    {
        let c = s.get_char(i);
        r.push(c);
        proof {
            assert(r@ =~= s@.subrange(0, i + 1));
        }
        i = i + 1;
    }
    proof {
        assert(s@.subrange(0, s@.len() as int) =~= s@);
    }
    r
}

/// The whitespace-delimited words of `chars`, in order.
fn split_words(chars: &Vec<char>) -> (words: Vec<Vec<char>>)
    ensures
        words@.map_values(|w: Vec<char>| w@) == split_words_spec(chars@),
{
    let n = chars.len();
    let mut words: Vec<Vec<char>> = Vec::new();
    let mut cur: Vec<char> = Vec::new();
    let mut i: usize = 0;
    proof {
        assert(chars@.skip(0) =~= chars@);
        assert(words@.map_values(|w: Vec<char>| w@) =~= Seq::<Seq<char>>::empty());
        assert(Seq::<Seq<char>>::empty() + split_acc(chars@, Seq::empty())
            =~= split_acc(chars@, Seq::empty()));
    }
    while i < n
        invariant
            i <= n,
            n == chars@.len(),
            split_acc(chars@, Seq::empty()) == words@.map_values(|w: Vec<char>| w@)
                + split_acc(chars@.skip(i as int), cur@),
        decreases n - i,
    {
        let ghost words0 = words@;
        let ghost cur0 = cur@;
        let c = chars[i];
        proof {
            assert(chars@.skip(i as int)[0] == chars@[i as int]);
            assert(chars@.skip(i as int).drop_first() =~= chars@.skip(i + 1));
        }
        if is_wsp_char(c) {
            if cur.len() > 0 {
                words.push(cur);
                cur = Vec::new();
                proof {
                    assert(words@.map_values(|w: Vec<char>| w@)
                        =~= words0.map_values(|w: Vec<char>| w@).push(cur0));
                    assert(split_acc(chars@.skip(i as int), cur0)
                        == seq![cur0] + split_acc(chars@.skip(i + 1), Seq::empty()));
                    assert(words0.map_values(|w: Vec<char>| w@)
                        + (seq![cur0] + split_acc(chars@.skip(i + 1), Seq::empty()))
                        =~= (words0.map_values(|w: Vec<char>| w@) + seq![cur0])
                        + split_acc(chars@.skip(i + 1), Seq::empty()));
                    assert(words0.map_values(|w: Vec<char>| w@) + seq![cur0]
                        =~= words0.map_values(|w: Vec<char>| w@).push(cur0));
                }
            } else {
                proof {
                    assert(cur0 =~= Seq::<char>::empty());
                }
            }
        } else {
            cur.push(c);
        }
        i = i + 1;
    }
    proof {
        assert(chars@.skip(n as int) =~= Seq::<char>::empty());
    }
    if cur.len() > 0 {
        let ghost words0 = words@;
        let ghost cur0 = cur@;
        words.push(cur);
        proof {
            assert(words@.map_values(|w: Vec<char>| w@)
                =~= words0.map_values(|w: Vec<char>| w@).push(cur0));
            assert(words0.map_values(|w: Vec<char>| w@) + seq![cur0]
                =~= words0.map_values(|w: Vec<char>| w@).push(cur0));
        }
    } else {
        proof {
            assert(cur@ =~= Seq::<char>::empty());
            assert(words@.map_values(|w: Vec<char>| w@) + Seq::<Seq<char>>::empty()
                =~= words@.map_values(|w: Vec<char>| w@));
        }
    }
    words
}

/// Append every character of `w` to `out`, in order.
fn push_all(out: &mut Vec<char>, w: &Vec<char>)
    ensures
        final(out)@ == old(out)@ + w@,
{
    let mut j: usize = 0;
    proof {
        assert(old(out)@ + w@.subrange(0, 0) =~= old(out)@);
    }
    while j < w.len()
        invariant
            j <= w@.len(),
            out@ == old(out)@ + w@.subrange(0, j as int),
        decreases w@.len() - j,
    {
        out.push(w[j]);
        proof {
            assert(out@ =~= old(out)@ + w@.subrange(0, j + 1));
        }
        j = j + 1;
    }
    proof {
        assert(old(out)@ + w@.subrange(0, w@.len() as int) =~= old(out)@ + w@);
    }
}

/// Pack `words` greedily into lines of width `width`, joined by newlines.
fn wrap_join(words: &Vec<Vec<char>>, width: usize) -> (out: Vec<char>)
    ensures
        out@ == wrap_from(words@.map_values(|w: Vec<char>| w@), width as int, 0),
{
    let ghost ws = words@.map_values(|w: Vec<char>| w@);
    let mut out: Vec<char> = Vec::new();
    let mut ll: usize = 0;
    let mut k: usize = 0;
    proof {
        assert(ws.skip(0) =~= ws);
        assert(Seq::<char>::empty() + wrap_from(ws, width as int, 0)
            =~= wrap_from(ws, width as int, 0));
    }
    while k < words.len()
        invariant
            k <= words@.len(),
            ws == words@.map_values(|w: Vec<char>| w@),
            wrap_from(ws, width as int, 0) == out@ + wrap_from(
                ws.skip(k as int),
                width as int,
                ll as int,
            ),
        decreases words@.len() - k,
    {
        let ghost out0 = out@;
        let ghost ll0 = ll as int;
        let w = &words[k];
        let wl = w.len();
        proof {
            assert(ws.skip(k as int)[0] == ws[k as int]);
            assert(ws[k as int] == w@);
            assert(ws.skip(k as int).drop_first() =~= ws.skip(k + 1));
        }
        let fits = wl < width && ll <= width - wl - 1;
        proof {
            assert(fits == (ll0 + wl + 1 <= width));
        }
        if !fits {
            out.push('\n');
            push_all(&mut out, w);
            ll = wl;
            proof {
                assert(out@ =~= out0.push('\n') + w@);
                assert(out0.push('\n') + w@ =~= out0 + (seq!['\n'] + w@));
                assert(wrap_from(ws.skip(k as int), width as int, ll0)
                    == (seq!['\n'] + w@) + wrap_from(ws.skip(k + 1), width as int, wl as int));
                assert(out0 + ((seq!['\n'] + w@) + wrap_from(ws.skip(k + 1), width as int, wl as int))
                    =~= (out0 + (seq!['\n'] + w@)) + wrap_from(ws.skip(k + 1), width as int, wl as int));
            }
        } else if ll > 0 {
            out.push(' ');
            push_all(&mut out, w);
            ll = ll + 1 + wl;
            proof {
                assert(out@ =~= out0.push(' ') + w@);
                assert(out0.push(' ') + w@ =~= out0 + (seq![' '] + w@));
                assert(wrap_from(ws.skip(k as int), width as int, ll0)
                    == (seq![' '] + w@) + wrap_from(ws.skip(k + 1), width as int, ll0 + 1 + wl));
                assert(out0 + ((seq![' '] + w@) + wrap_from(ws.skip(k + 1), width as int, ll0 + 1 + wl))
                    =~= (out0 + (seq![' '] + w@)) + wrap_from(ws.skip(k + 1), width as int, ll0 + 1 + wl));
            }
        } else {
            push_all(&mut out, w);
            ll = wl;
            proof {
                assert(wrap_from(ws.skip(k as int), width as int, ll0)
                    == w@ + wrap_from(ws.skip(k + 1), width as int, wl as int));
                assert(out0 + (w@ + wrap_from(ws.skip(k + 1), width as int, wl as int))
                    =~= (out0 + w@) + wrap_from(ws.skip(k + 1), width as int, wl as int));
            }
        }
        k = k + 1;
    }
    proof {
        assert(ws.skip(words@.len() as int) =~= Seq::<Seq<char>>::empty());
        assert(out@ + Seq::<char>::empty() =~= out@);
    }
    out
}

/// `chars` with every double-quote character removed, as a string.
fn strip_quotes_exec(chars: &Vec<char>) -> (r: String)
    ensures
        r@ == strip_quotes(chars@),
{
    let mut r = String::new();
    let mut i: usize = 0;
    proof {
        assert(chars@.skip(0) =~= chars@);
        assert(Seq::<char>::empty() + strip_quotes(chars@) =~= strip_quotes(chars@));
    }
    while i < chars.len()
        invariant
            i <= chars@.len(),
            strip_quotes(chars@) == r@ + strip_quotes(chars@.skip(i as int)),
        decreases chars@.len() - i,
    {
        let ghost r0 = r@;
        let c = chars[i];
        proof {
            assert(chars@.skip(i as int)[0] == chars@[i as int]);
            assert(chars@.skip(i as int).drop_first() =~= chars@.skip(i + 1));
        }
        if c != '"' {
            push_char(&mut r, c);
            proof {
                assert(strip_quotes(chars@.skip(i as int))
                    == seq![c] + strip_quotes(chars@.skip(i + 1)));
                assert(r0 + (seq![c] + strip_quotes(chars@.skip(i + 1)))
                    =~= r0.push(c) + strip_quotes(chars@.skip(i + 1)));
            }
        }
        i = i + 1;
    }
    proof {
        assert(chars@.skip(chars@.len() as int) =~= Seq::<char>::empty());
    }
    r
}

/// Greedily wrap `text` to `width` columns, joining lines with newlines, and
/// strip every double-quote character from the result.
pub fn wrap_text(text: String, width: usize) -> (r: String)
    ensures
        r@ == wrapped_text(text@, width as int),
        forall|i: int| 0 <= i < r@.len() ==> r@[i] != '"',
{
    let chars = str_to_chars(text.as_str());
    let words = split_words(&chars);
    let wrapped = wrap_join(&words, width);
    let r = strip_quotes_exec(&wrapped);
    proof {
        lemma_strip_quotes_no_quote(wrap_from(split_words_spec(text@), width as int, 0));
    }
    r
}

} // verus!
