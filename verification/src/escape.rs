use crate::ser::Error;
use vstd::prelude::*;

verus! {

/// A character sequence that contains no NUL character. Only such text can
/// stand in a Nix string literal; the escaper rejects everything else.
pub open spec fn nul_free(s: Seq<char>) -> bool {
    forall|i: int| 0 <= i < s.len() ==> s[i] != '\0'
}

/// The escape text of one character in a position where no `{` follows.
/// Newline, tab, carriage return and the double quote take their
/// two-character backslash escapes; everything else, a lone `$` included,
/// passes through verbatim.
pub open spec fn esc_solo(c: char) -> Seq<char> {
    if c == '\n' {
        seq!['\\', 'n']
    } else if c == '\t' {
        seq!['\\', 't']
    } else if c == '\r' {
        seq!['\\', 'r']
    } else if c == '"' {
        seq!['\\', '"']
    } else {
        seq![c]
    }
}

/// The escape text of the character at position `i` of `s`, with one
/// character of lookahead: a `$` is escaped exactly when a `{` follows, so
/// that the pair can never be read as the start of a `${...}` interpolation.
pub open spec fn esc_at(s: Seq<char>, i: int) -> Seq<char> {
    if s[i] == '$' && i + 1 < s.len() && s[i + 1] == '{' {
        seq!['\\', '$']
    } else {
        esc_solo(s[i])
    }
}

/// The body (between the quotes) of the string literal for `s`, from
/// position `i` on.
pub open spec fn esc_from(s: Seq<char>, i: int) -> Seq<char>
    decreases s.len() - i,
{
    if i < 0 || i >= s.len() {
        Seq::empty()
    } else {
        esc_at(s, i) + esc_from(s, i + 1)
    }
}

/// The full double-quoted Nix string literal for `s`.
pub open spec fn quoted(s: Seq<char>) -> Seq<char> {
    seq!['"'] + esc_from(s, 0) + seq!['"']
}

/// Characters that may open a bare attribute name.
pub open spec fn is_ident_start(c: char) -> bool {
    ('a' as u32 <= c as u32 && c as u32 <= 'z' as u32) || ('A' as u32 <= c as u32 && c as u32
        <= 'Z' as u32) || c == '_'
}

/// Characters that may continue a bare attribute name.
pub open spec fn is_ident_char(c: char) -> bool {
    is_ident_start(c) || ('0' as u32 <= c as u32 && c as u32 <= '9' as u32) || c == '-' || c == '\''
}

/// Text that can stand as a bare (unquoted) attribute name.
pub open spec fn is_ident(s: Seq<char>) -> bool {
    s.len() > 0 && is_ident_start(s[0]) && (forall|i: int| 0 <= i < s.len() ==> is_ident_char(s[i]))
}

/// The text an attribute name encodes to: bare when it is a valid
/// identifier, otherwise a quoted string literal.
pub open spec fn key_text(s: Seq<char>) -> Seq<char> {
    if is_ident(s) {
        s
    } else {
        quoted(s)
    }
}

/// A character sequence that contains no backslash. The escaper leaves a
/// backslash in its input untouched, so only backslash-free text survives a
/// round trip through the grammar unchanged.
pub open spec fn no_backslash(s: Seq<char>) -> bool {
    forall|i: int| 0 <= i < s.len() ==> s[i] != '\\'
}

/// The character a two-character backslash escape stands for under the Nix
/// string-literal rules: `\n`, `\t` and `\r` name the control characters,
/// and any other escaped character stands for itself.
pub open spec fn unesc(c: char) -> char {
    if c == 'n' {
        '\n'
    } else if c == 't' {
        '\t'
    } else if c == 'r' {
        '\r'
    } else {
        c
    }
}

/// The text a Nix double-quoted string-literal body denotes, read by the
/// grammar's own rules: a backslash escapes the character after it, `${`
/// opens an interpolation (so the body is not one plain literal), and an
/// unescaped `"` would have ended the literal early. `None` when the body
/// does not denote one plain piece of text.
pub open spec fn lit_denotes(t: Seq<char>) -> Option<Seq<char>>
    decreases t.len(),
{
    if t.len() == 0 {
        Some(Seq::empty())
    } else if t[0] == '\\' {
        if t.len() == 1 {
            None
        } else {
            match lit_denotes(t.subrange(2, t.len() as int)) {
                Some(rest) => Some(seq![unesc(t[1])] + rest),
                None => None,
            }
        }
    } else if t[0] == '"' {
        None
    } else if t[0] == '$' && t.len() > 1 && t[1] == '{' {
        None
    } else {
        match lit_denotes(t.subrange(1, t.len() as int)) {
            Some(rest) => Some(seq![t[0]] + rest),
            None => None,
        }
    }
}

proof fn lemma_esc_at_first_not_brace(s: Seq<char>, j: int)
    requires
        0 <= j < s.len(),
        s[j] != '{',
    ensures
        esc_at(s, j).len() >= 1,
        esc_at(s, j)[0] != '{',
{
}

proof fn lemma_escape_denotes_from(s: Seq<char>, i: int)
    requires
        0 <= i <= s.len(),
        nul_free(s),
        no_backslash(s),
    ensures
        lit_denotes(esc_from(s, i)) == Some(s.subrange(i, s.len() as int)),
    decreases s.len() - i,
{
    let n = s.len() as int;
    if i == n {
        assert(esc_from(s, i) =~= Seq::<char>::empty());
        assert(s.subrange(i, n) =~= Seq::<char>::empty());
    } else {
        lemma_escape_denotes_from(s, i + 1);
        let chunk = esc_at(s, i);
        let rest = esc_from(s, i + 1);
        let t = esc_from(s, i);
        assert(t == chunk + rest);
        let c = s[i];
        assert(c != '\0' && c != '\\');
        if c == '$' && i + 1 < n && s[i + 1] == '{' {
            assert(chunk =~= seq!['\\', '$']);
            assert(t[0] == '\\');
            assert(t.len() >= 2);
            assert(t[1] == '$');
            assert(t.subrange(2, t.len() as int) =~= rest);
            assert(unesc('$') == '$');
            assert(seq![c] + s.subrange(i + 1, n) =~= s.subrange(i, n));
        } else if c == '\n' || c == '\t' || c == '\r' || c == '"' {
            assert(chunk == esc_solo(c));
            assert(chunk.len() == 2 && chunk[0] == '\\');
            assert(t[0] == '\\');
            assert(t.len() >= 2);
            assert(t[1] == chunk[1]);
            assert(unesc(chunk[1]) == c);
            assert(t.subrange(2, t.len() as int) =~= rest);
            assert(seq![c] + s.subrange(i + 1, n) =~= s.subrange(i, n));
        } else {
            assert(chunk == esc_solo(c));
            assert(chunk =~= seq![c]);
            assert(t[0] == c);
            assert(t.subrange(1, t.len() as int) =~= rest);
            if c == '$' && t.len() > 1 {
                assert(rest.len() > 0);
                assert(i + 1 < n);
                assert(s[i + 1] != '{');
                assert(rest == esc_at(s, i + 1) + esc_from(s, i + 2));
                lemma_esc_at_first_not_brace(s, i + 1);
                assert(t[1] == esc_at(s, i + 1)[0]);
                assert(t[1] != '{');
            }
            assert(seq![c] + s.subrange(i + 1, n) =~= s.subrange(i, n));
        }
    }
}

/// Round trip for the escaper: for text free of NUL and of backslashes, the
/// literal body the escaper emits, read back by the grammar's own
/// string-literal rules, denotes exactly the original text. Every escape
/// the encoder chooses — for newline, tab, carriage return, the double
/// quote, and the `$` of a `${` — is undone by the grammar, and no bare
/// `${` or `"` survives in the emitted body.
pub proof fn lemma_escape_round_trip(s: Seq<char>)
    requires
        nul_free(s),
        no_backslash(s),
    ensures
        lit_denotes(esc_from(s, 0)) == Some(s),
{
    lemma_escape_denotes_from(s, 0);
    assert(s.subrange(0, s.len() as int) =~= s);
}

/// Relies on `String::push` from std: it appends the given character to the
/// end of the string, and does nothing else.
#[verifier::external_body]
pub(crate) fn push_char(s: &mut String, c: char)
    ensures
        final(s)@ == old(s)@.push(c),
{
    s.push(c);
}

/// Escape a single character for a position where no `{` follows it. A NUL
/// character is unencodable and fails; a `$` in such a position needs no
/// escape and passes through.
pub fn escape_char(c: &char) -> (r: Result<String, Error>)
    ensures
        r is Ok <==> *c != '\0',
        r is Ok ==> r->Ok_0@ == esc_solo(*c),
        r is Err ==> r->Err_0 == Error::UnencodableNullString,
{
    if *c == '\0' {
        return Err(Error::UnencodableNullString);
    }
    let mut out = String::new();
    if *c == '\n' {
        push_char(&mut out, '\\');
        push_char(&mut out, 'n');
    } else if *c == '\t' {
        push_char(&mut out, '\\');
        push_char(&mut out, 't');
    } else if *c == '\r' {
        push_char(&mut out, '\\');
        push_char(&mut out, 'r');
    } else if *c == '"' {
        push_char(&mut out, '\\');
        push_char(&mut out, '"');
    } else {
        push_char(&mut out, *c);
    }
    proof {
        assert(out@ =~= esc_solo(*c));
    }
    Ok(out)
}

/// Produce the full double-quoted Nix string literal for `s`, or fail when
/// `s` contains a NUL character. The result includes both quotes.
pub fn escape(s: &str) -> (r: Result<String, Error>)
    ensures
        r is Ok <==> nul_free(s@),
        r is Ok ==> r->Ok_0@ == quoted(s@),
        r is Err ==> r->Err_0 == Error::UnencodableNullString,
{
    let n = s.unicode_len();
    let mut out = String::new();
    push_char(&mut out, '"');
    let mut i: usize = 0;
    while i < n
        invariant
            n == s@.len(),
            i <= n,
            forall|j: int| 0 <= j < i ==> s@[j] != '\0',
            out@ + esc_from(s@, i as int) == seq!['"'] + esc_from(s@, 0),
        decreases n - i,
    {
        let c = s.get_char(i);
        if c == '$' && i + 1 < n && s.get_char(i + 1) == '{' {
            push_char(&mut out, '\\');
            push_char(&mut out, '$');
            proof {
                assert(esc_at(s@, i as int) =~= seq!['\\', '$']);
                assert(out@ + esc_from(s@, i + 1) =~= seq!['"'] + esc_from(s@, 0));
            }
        } else {
            match escape_char(&c) {
                Ok(t) => {
                    out.append(t.as_str());
                    proof {
                        assert(esc_at(s@, i as int) == esc_solo(c));
                        assert(out@ + esc_from(s@, i + 1) =~= seq!['"'] + esc_from(s@, 0));
                    }
                },
                Err(e) => {
                    proof {
                        assert(s@[i as int] == '\0');
                        assert(!nul_free(s@));
                    }
                    return Err(e);
                },
            }
        }
        i = i + 1;
    }
    push_char(&mut out, '"');
    proof {
        assert(esc_from(s@, n as int) =~= Seq::<char>::empty());
        assert(out@ =~= quoted(s@));
    }
    Ok(out)
}

/// Decide whether `s` can stand as a bare attribute name.
pub fn is_ident_str(s: &str) -> (r: bool)
    ensures
        r == is_ident(s@),
{
    let n = s.unicode_len();
    if n == 0 {
        return false;
    }
    if !is_ident_start_char(s.get_char(0)) {
        return false;
    }
    let mut i: usize = 0;
    while i < n
        invariant
            n == s@.len(),
            i <= n,
            n > 0,
            is_ident_start(s@[0]),
            forall|j: int| 0 <= j < i ==> is_ident_char(s@[j]),
        decreases n - i,
    {
        if !is_ident_char_exec(s.get_char(i)) {
            return false;
        }
        i = i + 1;
    }
    true
}

fn is_ident_start_char(c: char) -> (r: bool)
    ensures
        r == is_ident_start(c),
{
    (c as u32 >= 'a' as u32 && c as u32 <= 'z' as u32) || (c as u32 >= 'A' as u32 && c as u32
        <= 'Z' as u32) || c == '_'
}

fn is_ident_char_exec(c: char) -> (r: bool)
    ensures
        r == is_ident_char(c),
{
    is_ident_start_char(c) || (c as u32 >= '0' as u32 && c as u32 <= '9' as u32) || c == '-' || c
        == '\''
}

/// Every valid bare attribute name is free of NUL characters.
pub proof fn lemma_ident_nul_free(s: Seq<char>)
    requires
        is_ident(s),
    ensures
        nul_free(s),
{
    assert forall|i: int| 0 <= i < s.len() implies s[i] != '\0' by {
        assert(is_ident_char(s[i]));
    }
}

/// Produce the attribute-name text for `s`: the bare name when `s` is a
/// valid identifier, otherwise its quoted string literal. Fails exactly when
/// `s` contains a NUL character.
pub fn encode_key(s: &str) -> (r: Result<String, Error>)
    ensures
        r is Ok <==> nul_free(s@),
        r is Ok ==> r->Ok_0@ == key_text(s@),
        r is Err ==> r->Err_0 == Error::UnencodableNullString,
{
    if is_ident_str(s) {
        proof {
            lemma_ident_nul_free(s@);
        }
        Ok(s.to_owned())
    } else {
        escape(s)
    }
}

} // verus!
