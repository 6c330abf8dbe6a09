//! Literal decoding — the single "plain literal vs guard" decision point.
//!
//! A source string token (quotes included) is turned into its canonical runtime
//! string, or reported as dynamic (interpolated) so the caller routes it to the
//! guard path. All comparison downstream is canonical-to-canonical, so a PHP
//! `"a\nb"` and a PO `msgid "a\nb"` (both a real newline) compare equal.
//!
//! Per-language rules:
//! - PHP `'…'` (and any non-double quote): only `\\` and `\'` are escapes.
//! - PHP `"…"`: full escapes; any unescaped `$` means interpolation.
//! - JS `'…'` / `"…"`: full escapes, no interpolation.
//! - JS `` `…` ``: full escapes; an unescaped `${` means interpolation.
//! - Twig `'…'` / `"…"`: `\\` and quote escapes; Twig `"#{…}"` is interpolation.

use vstd::prelude::*;

use crate::text::{chars_of, contains_seq, push_char, spec_contains_seq};

verus! {

/// The source language of a token, selecting the escape/interpolation rules.
#[derive(Debug, Clone, Copy, PartialEq, Eq, Structural)]
pub enum Lang {
    Php,
    Js,
    Twig,
}

/// The outcome of decoding a string token.
#[derive(Debug, Clone, PartialEq, Eq)]
pub enum Decoded {
    /// A plain, fully-static literal with its canonical runtime value.
    Literal(String),
    /// The token contains interpolation; it must go to the guard layer.
    Dynamic,
}

impl View for Decoded {
    /// `Some(text)` for a literal, `None` for a dynamic token.
    type V = Option<Seq<char>>;

    open spec fn view(&self) -> Option<Seq<char>> {
        match self {
            Decoded::Literal(s) => Some(s@),
            Decoded::Dynamic => None,
        }
    }
}

/// Which C-like escape table applies.
#[derive(Clone, Copy, PartialEq, Eq, Structural)]
pub enum EscapeFlavor {
    /// PHP double quotes: unknown escapes keep their backslash; `\e` is ESC.
    PhpDouble,
    /// JS strings and templates: unknown escapes drop the backslash.
    Js,
}

/// The three quote characters a string token may start with.
pub open spec fn is_quote(c: char) -> bool {
    c == '\'' || c == '"' || c == '`'
}

/// Split a quoted token into its quote and its body (the closing quote, when it
/// matches the opening one, is removed). `None` when the token does not start
/// with a quote.
pub open spec fn spec_split_quotes(t: Seq<char>) -> Option<(char, Seq<char>)> {
    if t.len() == 0 || !is_quote(t[0]) {
        None
    } else {
        let rest = t.drop_first();
        if rest.len() > 0 && rest.last() == t[0] {
            Some((t[0], rest.drop_last()))
        } else {
            Some((t[0], rest))
        }
    }
}

/// An unescaped `$` occurs in a PHP double-quoted body (a backslash hides the
/// character after it).
pub open spec fn spec_php_interpolates(s: Seq<char>) -> bool
    decreases s.len(),
{
    if s.len() == 0 {
        false
    } else if s[0] == '\\' {
        s.len() >= 2 && spec_php_interpolates(s.skip(2))
    } else if s[0] == '$' {
        true
    } else {
        spec_php_interpolates(s.skip(1))
    }
}

/// An unescaped `${` occurs in a JS template body.
pub open spec fn spec_template_interpolates(s: Seq<char>) -> bool
    decreases s.len(),
{
    if s.len() == 0 {
        false
    } else if s[0] == '\\' {
        s.len() >= 2 && spec_template_interpolates(s.skip(2))
    } else if s[0] == '$' && s.len() >= 2 && s[1] == '{' {
        true
    } else {
        spec_template_interpolates(s.skip(1))
    }
}

/// PHP single-quote body: only `\\` and `\'` are escapes; any other backslash
/// stays.
pub open spec fn spec_unescape_php_single(s: Seq<char>) -> Seq<char>
    decreases s.len(),
{
    if s.len() == 0 {
        Seq::empty()
    } else if s[0] == '\\' && s.len() >= 2 && (s[1] == '\\' || s[1] == '\'') {
        seq![s[1]] + spec_unescape_php_single(s.skip(2))
    } else {
        seq![s[0]] + spec_unescape_php_single(s.skip(1))
    }
}

/// Twig body: `\\`, `\'` and `\"` are escapes; any other backslash stays.
pub open spec fn spec_unescape_twig(s: Seq<char>) -> Seq<char>
    decreases s.len(),
{
    if s.len() == 0 {
        Seq::empty()
    } else if s[0] == '\\' && s.len() >= 2 && (s[1] == '\\' || s[1] == '\'' || s[1] == '"') {
        seq![s[1]] + spec_unescape_twig(s.skip(2))
    } else {
        seq![s[0]] + spec_unescape_twig(s.skip(1))
    }
}

/// The character a recognised C-like escape letter stands for.
pub open spec fn spec_escape_char(c: char, flavor: EscapeFlavor) -> Option<char> {
    if c == 'n' {
        Some('\n')
    } else if c == 't' {
        Some('\t')
    } else if c == 'r' {
        Some('\r')
    } else if c == '\\' || c == '"' || c == '\'' || c == '`' || c == '$' {
        Some(c)
    } else if c == '0' {
        Some('\0')
    } else if c == 'v' {
        Some('\u{0b}')
    } else if c == 'f' {
        Some('\u{0c}')
    } else if c == 'b' {
        Some('\u{08}')
    } else if c == 'e' && flavor == EscapeFlavor::PhpDouble {
        Some('\u{1b}')
    } else {
        None
    }
}

/// What one escape `\c` decodes to: the escaped character when recognised;
/// otherwise PHP keeps the backslash and JS drops it.
pub open spec fn spec_escape_out(c: char, flavor: EscapeFlavor) -> Seq<char> {
    match spec_escape_char(c, flavor) {
        Some(d) => seq![d],
        None => if flavor == EscapeFlavor::PhpDouble {
            seq!['\\', c]
        } else {
            seq![c]
        },
    }
}

/// The shared C-like escape decoder for PHP double quotes and JS; a trailing
/// lone backslash stays.
pub open spec fn spec_decode_escapes(s: Seq<char>, flavor: EscapeFlavor) -> Seq<char>
    decreases s.len(),
{
    if s.len() == 0 {
        Seq::empty()
    } else if s[0] != '\\' {
        seq![s[0]] + spec_decode_escapes(s.skip(1), flavor)
    } else if s.len() == 1 {
        seq!['\\']
    } else {
        spec_escape_out(s[1], flavor) + spec_decode_escapes(s.skip(2), flavor)
    }
}

/// The decoded value of a token: `Some(text)` for a literal, `None` when it
/// interpolates. A token without an opening quote is the empty literal.
pub open spec fn spec_decode_token(lang: Lang, t: Seq<char>) -> Option<Seq<char>> {
    match spec_split_quotes(t) {
        None => Some(Seq::empty()),
        Some((q, inner)) => match lang {
            Lang::Php => if q == '"' {
                if spec_php_interpolates(inner) {
                    None
                } else {
                    Some(spec_decode_escapes(inner, EscapeFlavor::PhpDouble))
                }
            } else {
                Some(spec_unescape_php_single(inner))
            },
            Lang::Js => if q == '`' && spec_template_interpolates(inner) {
                None
            } else {
                Some(spec_decode_escapes(inner, EscapeFlavor::Js))
            },
            Lang::Twig => if q == '"' && spec_contains_seq(inner, seq!['#', '{']) {
                None
            } else {
                Some(spec_unescape_twig(inner))
            },
        },
    }
}

/// Decode a string token (with its quotes) for the given language.
pub fn decode_token(lang: Lang, token: &str) -> (r: Decoded)
    ensures
        r@ == spec_decode_token(lang, token@),
{
    let t = chars_of(token);
    let (q, inner) = match split_quotes(&t) {
        None => return Decoded::Literal(String::new()),
        Some(p) => p,
    };
    match lang {
        Lang::Php => {
            if q == '"' {
                if has_php_interpolation(&inner) {
                    Decoded::Dynamic
                } else {
                    Decoded::Literal(decode_escape_chars(&inner, EscapeFlavor::PhpDouble))
                }
            } else {
                Decoded::Literal(unescape_php_single_chars(&inner))
            }
        },
        Lang::Js => {
            if q == '`' && has_template_interpolation(&inner) {
                Decoded::Dynamic
            } else {
                Decoded::Literal(decode_escape_chars(&inner, EscapeFlavor::Js))
            }
        },
        Lang::Twig => {
            let marker: Vec<char> = vec!['#', '{'];
            if q == '"' && contains_seq(&inner, &marker) {
                Decoded::Dynamic
            } else {
                Decoded::Literal(unescape_twig_chars(&inner))
            }
        },
    }
}

/// Split a token into its opening quote and body.
pub fn split_quotes(t: &Vec<char>) -> (r: Option<(char, Vec<char>)>)
    ensures
        match r {
            None => spec_split_quotes(t@) is None,
            Some((q, inner)) => spec_split_quotes(t@) == Some((q, inner@)),
        },
{
    if t.len() == 0 {
        return None;
    }
    let first = t[0];
    if !(first == '\'' || first == '"' || first == '`') {
        return None;
    }
    let end: usize = if t.len() >= 2 && t[t.len() - 1] == first {
        t.len() - 1
    } else {
        t.len()
    };
    let mut inner: Vec<char> = Vec::new();
    let mut i: usize = 1;
    while i < end
        invariant
            1 <= i <= end <= t.len(),
            inner@ == t@.subrange(1, i as int),
        decreases end - i,
    {
        inner.push(t[i]);
        i = i + 1;
    }
    proof {
        let rest = t@.drop_first();
        if rest.len() > 0 && rest.last() == t@[0] {
            assert(inner@ =~= rest.drop_last());
        } else {
            assert(inner@ =~= rest);
        }
    }
    Some((first, inner))
}

/// Whether an unescaped `$` occurs in a PHP double-quoted body.
pub fn has_php_interpolation(s: &Vec<char>) -> (r: bool)
    ensures
        r == spec_php_interpolates(s@),
{
    let mut i: usize = 0;
    assert(s@.skip(0) =~= s@);
    while i < s.len()
        invariant
            i <= s.len() + 1,
            spec_php_interpolates(s@) == (i <= s.len() && spec_php_interpolates(s@.skip(i as int))),
        decreases s.len() + 1 - i,
    {
        proof {
            assert(s@.skip(i as int)[0] == s@[i as int]);
            assert(s@.skip(i as int).skip(1) =~= s@.skip(i + 1));
            if i + 2 <= s.len() {
                assert(s@.skip(i as int).skip(2) =~= s@.skip(i + 2));
            }
        }
        if s[i] == '\\' {
            if i + 1 >= s.len() {
                return false;
            }
            assert(s@.skip(i as int)[1] == s@[i + 1]);
            i = i + 2;
        } else if s[i] == '$' {
            return true;
        } else {
            i = i + 1;
        }
    }
    proof {
        if i == s.len() {
            assert(s@.skip(i as int).len() == 0);
        }
    }
    false
}

/// Whether an unescaped `${` occurs in a JS template body.
pub fn has_template_interpolation(s: &Vec<char>) -> (r: bool)
    ensures
        r == spec_template_interpolates(s@),
{
    let mut i: usize = 0;
    assert(s@.skip(0) =~= s@);
    while i < s.len()
        invariant
            i <= s.len() + 1,
            spec_template_interpolates(s@) == (i <= s.len() && spec_template_interpolates(
                s@.skip(i as int),
            )),
        decreases s.len() + 1 - i,
    {
        proof {
            assert(s@.skip(i as int)[0] == s@[i as int]);
            assert(s@.skip(i as int).skip(1) =~= s@.skip(i + 1));
            if i + 2 <= s.len() {
                assert(s@.skip(i as int).skip(2) =~= s@.skip(i + 2));
            }
            if i + 1 < s.len() {
                assert(s@.skip(i as int)[1] == s@[i + 1]);
            }
        }
        if s[i] == '\\' {
            if i + 1 >= s.len() {
                return false;
            }
            i = i + 2;
        } else if s[i] == '$' && i + 1 < s.len() && s[i + 1] == '{' {
            return true;
        } else {
            i = i + 1;
        }
    }
    proof {
        if i == s.len() {
            assert(s@.skip(i as int).len() == 0);
        }
    }
    false
}

/// PHP single-quote rules over a character body.
pub fn unescape_php_single_chars(s: &Vec<char>) -> (r: String)
    ensures
        r@ == spec_unescape_php_single(s@),
{
    let mut out = String::new();
    let mut i: usize = 0;
    assert(s@.skip(0) =~= s@);
    while i < s.len()
        invariant
            i <= s.len(),
            spec_unescape_php_single(s@) == out@ + spec_unescape_php_single(s@.skip(i as int)),
        decreases s.len() - i,
    {
        proof {
            assert(s@.skip(i as int)[0] == s@[i as int]);
            assert(s@.skip(i as int).skip(1) =~= s@.skip(i + 1));
            if i + 2 <= s.len() {
                assert(s@.skip(i as int).skip(2) =~= s@.skip(i + 2));
            }
            if i + 1 < s.len() {
                assert(s@.skip(i as int)[1] == s@[i + 1]);
            }
        }
        let ghost before = out@;
        if s[i] == '\\' && i + 1 < s.len() && (s[i + 1] == '\\' || s[i + 1] == '\'') {
            push_char(&mut out, s[i + 1]);
            proof {
                assert(out@ == before + seq![s@[i + 1]]);
                assert(before + (seq![s@[i + 1]] + spec_unescape_php_single(s@.skip(i + 2)))
                    =~= out@ + spec_unescape_php_single(s@.skip(i + 2)));
            }
            i = i + 2;
        } else {
            push_char(&mut out, s[i]);
            proof {
                assert(before + (seq![s@[i as int]] + spec_unescape_php_single(s@.skip(i + 1)))
                    =~= out@ + spec_unescape_php_single(s@.skip(i + 1)));
            }
            i = i + 1;
        }
    }
    proof {
        assert(s@.skip(i as int).len() == 0);
        assert(out@ + Seq::<char>::empty() =~= out@);
    }
    out
}

/// Twig rules over a character body.
pub fn unescape_twig_chars(s: &Vec<char>) -> (r: String)
    ensures
        r@ == spec_unescape_twig(s@),
{
    let mut out = String::new();
    let mut i: usize = 0;
    assert(s@.skip(0) =~= s@);
    while i < s.len()
        invariant
            i <= s.len(),
            spec_unescape_twig(s@) == out@ + spec_unescape_twig(s@.skip(i as int)),
        decreases s.len() - i,
    {
        proof {
            assert(s@.skip(i as int)[0] == s@[i as int]);
            assert(s@.skip(i as int).skip(1) =~= s@.skip(i + 1));
            if i + 2 <= s.len() {
                assert(s@.skip(i as int).skip(2) =~= s@.skip(i + 2));
            }
            if i + 1 < s.len() {
                assert(s@.skip(i as int)[1] == s@[i + 1]);
            }
        }
        let ghost before = out@;
        if s[i] == '\\' && i + 1 < s.len() && (s[i + 1] == '\\' || s[i + 1] == '\'' || s[i + 1]
            == '"') {
            push_char(&mut out, s[i + 1]);
            proof {
                assert(before + (seq![s@[i + 1]] + spec_unescape_twig(s@.skip(i + 2))) =~= out@
                    + spec_unescape_twig(s@.skip(i + 2)));
            }
            i = i + 2;
        } else {
            push_char(&mut out, s[i]);
            proof {
                assert(before + (seq![s@[i as int]] + spec_unescape_twig(s@.skip(i + 1))) =~= out@
                    + spec_unescape_twig(s@.skip(i + 1)));
            }
            i = i + 1;
        }
    }
    proof {
        assert(s@.skip(i as int).len() == 0);
        assert(out@ + Seq::<char>::empty() =~= out@);
    }
    out
}

/// The recognised C-like escape letters.
fn escape_char(c: char, flavor: EscapeFlavor) -> (r: Option<char>)
    ensures
        r == spec_escape_char(c, flavor),
{
    if c == 'n' {
        Some('\n')
    } else if c == 't' {
        Some('\t')
    } else if c == 'r' {
        Some('\r')
    } else if c == '\\' || c == '"' || c == '\'' || c == '`' || c == '$' {
        Some(c)
    } else if c == '0' {
        Some('\0')
    } else if c == 'v' {
        Some('\u{0b}')
    } else if c == 'f' {
        Some('\u{0c}')
    } else if c == 'b' {
        Some('\u{08}')
    } else if c == 'e' && flavor == EscapeFlavor::PhpDouble {
        Some('\u{1b}')
    } else {
        None
    }
}

/// Shared C-like escape decoder for PHP double quotes and JS.
pub fn decode_escape_chars(s: &Vec<char>, flavor: EscapeFlavor) -> (r: String)
    ensures
        r@ == spec_decode_escapes(s@, flavor),
{
    let mut out = String::new();
    let mut i: usize = 0;
    assert(s@.skip(0) =~= s@);
    while i < s.len()
        invariant
            i <= s.len(),
            spec_decode_escapes(s@, flavor) == out@ + spec_decode_escapes(s@.skip(i as int), flavor),
        decreases s.len() - i,
    {
        proof {
            assert(s@.skip(i as int)[0] == s@[i as int]);
            assert(s@.skip(i as int).skip(1) =~= s@.skip(i + 1));
            if i + 2 <= s.len() {
                assert(s@.skip(i as int).skip(2) =~= s@.skip(i + 2));
            }
            if i + 1 < s.len() {
                assert(s@.skip(i as int)[1] == s@[i + 1]);
            }
        }
        let ghost before = out@;
        if s[i] != '\\' {
            push_char(&mut out, s[i]);
            proof {
                assert(before + (seq![s@[i as int]] + spec_decode_escapes(s@.skip(i + 1), flavor))
                    =~= out@ + spec_decode_escapes(s@.skip(i + 1), flavor));
            }
            i = i + 1;
        } else if i + 1 >= s.len() {
            push_char(&mut out, '\\');
            proof {
                assert(s@.skip(i + 1).len() == 0);
                assert(before + seq!['\\'] =~= out@ + spec_decode_escapes(s@.skip(i + 1), flavor));
            }
            i = i + 1;
        } else {
            let c = s[i + 1];
            match escape_char(c, flavor) {
                Some(d) => {
                    push_char(&mut out, d);
                },
                None => {
                    if flavor == EscapeFlavor::PhpDouble {
                        push_char(&mut out, '\\');
                        push_char(&mut out, c);
                    } else {
                        push_char(&mut out, c);
                    }
                },
            }
            proof {
                assert(out@ =~= before + spec_escape_out(c, flavor));
                assert(before + (spec_escape_out(c, flavor) + spec_decode_escapes(
                    s@.skip(i + 2),
                    flavor,
                )) =~= out@ + spec_decode_escapes(s@.skip(i + 2), flavor));
            }
            i = i + 2;
        }
    }
    proof {
        assert(s@.skip(i as int).len() == 0);
        assert(out@ + Seq::<char>::empty() =~= out@);
    }
    out
}

/// PHP single-quote: only `\\` and `\'` are escapes; every other backslash is
/// literal.
pub fn unescape_php_single(inner: &str) -> (r: String)
    ensures
        r@ == spec_unescape_php_single(inner@),
{
    unescape_php_single_chars(&chars_of(inner))
}

/// PHP double-quote escapes. Unrecognized escapes keep the backslash.
pub fn unescape_php_double(inner: &str) -> (r: String)
    ensures
        r@ == spec_decode_escapes(inner@, EscapeFlavor::PhpDouble),
{
    decode_escape_chars(&chars_of(inner), EscapeFlavor::PhpDouble)
}

/// JS string/template escapes. Unrecognized escapes drop the backslash.
pub fn unescape_js(inner: &str) -> (r: String)
    ensures
        r@ == spec_decode_escapes(inner@, EscapeFlavor::Js),
{
    decode_escape_chars(&chars_of(inner), EscapeFlavor::Js)
}

/// Twig string escapes: `\\` and the quote characters.
pub fn unescape_twig(inner: &str) -> (r: String)
    ensures
        r@ == spec_unescape_twig(inner@),
{
    unescape_twig_chars(&chars_of(inner))
}


/// Twig escapes, as documented: a backslash before a backslash or either
/// quote stands for that character alone; a backslash before anything else
/// is kept, and any other character stands for itself — whatever follows.
pub proof fn lemma_twig_escapes(c: char, s: Seq<char>)
    ensures
        (c == '\\' || c == '\'' || c == '"') ==> spec_unescape_twig(seq!['\\', c] + s) == seq![c]
            + spec_unescape_twig(s),
        !(c == '\\' || c == '\'' || c == '"') ==> spec_unescape_twig(seq!['\\', c] + s) == seq![
            '\\',
            c,
        ] + spec_unescape_twig(s),
        c != '\\' ==> spec_unescape_twig(seq![c] + s) == seq![c] + spec_unescape_twig(s),
        spec_unescape_twig(seq!['\\']) == seq!['\\'],
{
    let t = seq!['\\', c] + s;
    assert(t.skip(2) =~= s);
    assert(t.skip(1) =~= seq![c] + s);
    let u = seq![c] + s;
    assert(u.skip(1) =~= s);
    if !(c == '\\' || c == '\'' || c == '"') {
        assert(spec_unescape_twig(t) == seq!['\\'] + spec_unescape_twig(t.skip(1)));
        assert(seq!['\\'] + (seq![c] + spec_unescape_twig(s)) =~= seq!['\\', c] + spec_unescape_twig(s));
    }
    let b = seq!['\\'];
    assert(b.skip(1) =~= Seq::<char>::empty());
    assert(spec_unescape_twig(b.skip(1)) == Seq::<char>::empty());
    assert(seq![b[0]] + Seq::<char>::empty() =~= b);
}

/// A quoted Twig token decodes to its unescaped body: `'it\'s here'` is
/// `it's here`; a double-quoted one holding `#{` is dynamic.
pub proof fn lemma_twig_token(q: char, inner: Seq<char>)
    requires
        q == '\'' || q == '"',
    ensures
        !(q == '"' && spec_contains_seq(inner, seq!['#', '{'])) ==> spec_decode_token(
            Lang::Twig,
            seq![q] + inner + seq![q],
        ) == Some(spec_unescape_twig(inner)),
        (q == '"' && spec_contains_seq(inner, seq!['#', '{'])) ==> spec_decode_token(
            Lang::Twig,
            seq![q] + inner + seq![q],
        ) is None,
{
    let t = seq![q] + inner + seq![q];
    assert(t.drop_first() =~= inner + seq![q]);
    assert((inner + seq![q]).drop_last() =~= inner);
}

/// PHP single-quote escapes, as documented: only `\\` and `\'` are escapes;
/// any other backslash is kept.
pub proof fn lemma_php_single_escapes(c: char, s: Seq<char>)
    ensures
        (c == '\\' || c == '\'') ==> spec_unescape_php_single(seq!['\\', c] + s) == seq![c]
            + spec_unescape_php_single(s),
        !(c == '\\' || c == '\'') ==> spec_unescape_php_single(seq!['\\', c] + s) == seq!['\\', c]
            + spec_unescape_php_single(s),
        c != '\\' ==> spec_unescape_php_single(seq![c] + s) == seq![c] + spec_unescape_php_single(s),
{
    let t = seq!['\\', c] + s;
    assert(t.skip(2) =~= s);
    assert(t.skip(1) =~= seq![c] + s);
    let u = seq![c] + s;
    assert(u.skip(1) =~= s);
    if !(c == '\\' || c == '\'') {
        assert(spec_unescape_php_single(t) == seq!['\\'] + spec_unescape_php_single(t.skip(1)));
        assert(seq!['\\'] + (seq![c] + spec_unescape_php_single(s)) =~= seq!['\\', c]
            + spec_unescape_php_single(s));
    }
}

/// The C-like escapes of PHP double quotes and JS: `\n`, `\t`, `\r`, `\0`,
/// `\v`, `\f`, `\b` stand for their control characters, `\\` and the quote,
/// backtick and dollar escapes for the character itself, `\e` for ESC in PHP
/// only; an unknown escape keeps its backslash in PHP and drops it in JS.
pub proof fn lemma_c_escapes(c: char, s: Seq<char>, flavor: EscapeFlavor)
    ensures
        c == 'n' ==> spec_decode_escapes(seq!['\\', c] + s, flavor) == seq!['\n'] + spec_decode_escapes(s, flavor),
        c == 't' ==> spec_decode_escapes(seq!['\\', c] + s, flavor) == seq!['\t'] + spec_decode_escapes(s, flavor),
        c == 'r' ==> spec_decode_escapes(seq!['\\', c] + s, flavor) == seq!['\r'] + spec_decode_escapes(s, flavor),
        c == '0' ==> spec_decode_escapes(seq!['\\', c] + s, flavor) == seq!['\0'] + spec_decode_escapes(s, flavor),
        c == 'v' ==> spec_decode_escapes(seq!['\\', c] + s, flavor) == seq!['\u{0b}'] + spec_decode_escapes(s, flavor),
        c == 'f' ==> spec_decode_escapes(seq!['\\', c] + s, flavor) == seq!['\u{0c}'] + spec_decode_escapes(s, flavor),
        c == 'b' ==> spec_decode_escapes(seq!['\\', c] + s, flavor) == seq!['\u{08}'] + spec_decode_escapes(s, flavor),
        (c == '\\' || c == '"' || c == '\'' || c == '`' || c == '$') ==> spec_decode_escapes(
            seq!['\\', c] + s,
            flavor,
        ) == seq![c] + spec_decode_escapes(s, flavor),
        (c == 'e' && flavor == EscapeFlavor::PhpDouble) ==> spec_decode_escapes(seq!['\\', c] + s, flavor)
            == seq!['\u{1b}'] + spec_decode_escapes(s, flavor),
        (spec_escape_char(c, flavor) is None && flavor == EscapeFlavor::PhpDouble) ==> spec_decode_escapes(
            seq!['\\', c] + s,
            flavor,
        ) == seq!['\\', c] + spec_decode_escapes(s, flavor),
        (spec_escape_char(c, flavor) is None && flavor == EscapeFlavor::Js) ==> spec_decode_escapes(
            seq!['\\', c] + s,
            flavor,
        ) == seq![c] + spec_decode_escapes(s, flavor),
        c != '\\' ==> spec_decode_escapes(seq![c] + s, flavor) == seq![c] + spec_decode_escapes(s, flavor),
        spec_escape_char('e', EscapeFlavor::Js) is None,
        spec_escape_char('z', flavor) is None,
{
    let t = seq!['\\', c] + s;
    assert(t.skip(2) =~= s);
    let u = seq![c] + s;
    assert(u.skip(1) =~= s);
}

} // verus!
