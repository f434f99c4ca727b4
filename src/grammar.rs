//! The email grammar that the extractor recognises, stated over sequences of
//! characters.
//!
//! An address is a local part, an `@`, and a domain. Only lowercase ASCII
//! letters are accepted in the unquoted local part and in domain names.
use vstd::prelude::*;

verus! {

/// Whether `c` lies in the inclusive code point range `lo..=hi`.
pub open spec fn in_range(c: char, lo: u32, hi: u32) -> bool {
    lo <= (c as u32) && (c as u32) <= hi
}

/// A lowercase ASCII letter or an ASCII digit.
pub open spec fn is_lower_alnum(c: char) -> bool {
    ('a' <= c && c <= 'z') || ('0' <= c && c <= '9')
}

pub open spec fn is_digit(c: char) -> bool {
    '0' <= c && c <= '9'
}

/// A character allowed in an unquoted local part: `[a-z0-9!#$%&'*+/=?^_`{|}~-]`.
pub open spec fn is_atom_char(c: char) -> bool {
    is_lower_alnum(c) || c == '!' || c == '#' || c == '$' || c == '%' || c == '&' || c == '\''
        || c == '*' || c == '+' || c == '/' || c == '=' || c == '?' || c == '^' || c == '_'
        || c == '`' || c == '{' || c == '|' || c == '}' || c == '~' || c == '-'
}

/// One or more runs of atom characters separated by single dots.
pub open spec fn is_dot_atom(s: Seq<char>) -> bool {
    &&& s.len() > 0
    &&& s[0] != '.'
    &&& s.last() != '.'
    &&& forall|i: int| 0 <= i < s.len() ==> is_atom_char(#[trigger] s[i]) || s[i] == '.'
    &&& forall|i: int| 0 < i < s.len() && #[trigger] s[i] == '.' ==> s[i - 1] != '.'
}

/// A character that may stand unescaped between the quotes of a local part:
/// `[\x01-\x08\x0b\x0c\x0e-\x1f\x21\x23-\x5b\x5d-\x7f]`.
pub open spec fn is_quoted_text(c: char) -> bool {
    in_range(c, 0x01, 0x08) || in_range(c, 0x0b, 0x0c) || in_range(c, 0x0e, 0x1f)
        || in_range(c, 0x21, 0x21) || in_range(c, 0x23, 0x5b) || in_range(c, 0x5d, 0x7f)
}

/// A character that may follow a backslash: `[\x01-\x09\x0b\x0c\x0e-\x7f]`.
pub open spec fn is_escapable(c: char) -> bool {
    in_range(c, 0x01, 0x09) || in_range(c, 0x0b, 0x0c) || in_range(c, 0x0e, 0x7f)
}

/// A sequence of tokens, each a character that `plain` accepts or a
/// backslash followed by an escapable character.
pub open spec fn is_token_run(s: Seq<char>, plain: spec_fn(char) -> bool) -> bool
    decreases s.len(),
{
    if s.len() == 0 {
        true
    } else {
        (plain(s[0]) && is_token_run(s.drop_first(), plain)) || (s.len() >= 2 && s[0] == '\\'
            && is_escapable(s[1]) && is_token_run(s.skip(2), plain))
    }
}

/// A local part in double quotes.
pub open spec fn is_quoted_local(s: Seq<char>) -> bool {
    &&& s.len() >= 2
    &&& s[0] == '"'
    &&& s.last() == '"'
    &&& is_token_run(s.subrange(1, s.len() - 1), |c: char| is_quoted_text(c))
}

pub open spec fn is_local_part(s: Seq<char>) -> bool {
    is_dot_atom(s) || is_quoted_local(s)
}

/// Two or more dot-separated labels; each label is made of lowercase letters,
/// digits and hyphens, and starts and ends with a letter or digit.
pub open spec fn is_domain_name(s: Seq<char>) -> bool {
    &&& s.len() > 0
    &&& is_lower_alnum(s[0])
    &&& is_lower_alnum(s.last())
    &&& forall|i: int|
        0 <= i < s.len() ==> is_lower_alnum(#[trigger] s[i]) || s[i] == '-' || s[i] == '.'
    &&& forall|i: int|
        0 < i < s.len() - 1 && #[trigger] s[i] == '.' ==> is_lower_alnum(s[i - 1])
            && is_lower_alnum(s[i + 1])
    &&& exists|i: int| 0 <= i < s.len() && #[trigger] s[i] == '.'
}

/// The value of a decimal digit.
pub open spec fn digit_value(c: char) -> int {
    (c as u32) - ('0' as u32)
}

/// One to three decimal digits (leading zeros allowed) of value at most 255.
pub open spec fn is_octet(s: Seq<char>) -> bool {
    &&& 1 <= s.len() <= 3
    &&& forall|i: int| 0 <= i < s.len() ==> is_digit(#[trigger] s[i])
    &&& s.len() == 3 ==> 100 * digit_value(s[0]) + 10 * digit_value(s[1]) + digit_value(s[2])
        <= 255
}

/// A character allowed unescaped in a general address literal:
/// `[\x01-\x08\x0b\x0c\x0e-\x1f\x21-\x7f]`.
pub open spec fn is_literal_text(c: char) -> bool {
    in_range(c, 0x01, 0x08) || in_range(c, 0x0b, 0x0c) || in_range(c, 0x0e, 0x1f)
        || in_range(c, 0x21, 0x7f)
}

/// A tag, a colon, and a non-empty run of literal text.
pub open spec fn is_general_literal(s: Seq<char>) -> bool {
    exists|k: int|
        0 < k < s.len() - 1 && #[trigger] s[k] == ':' && is_lower_alnum(s[k - 1]) && (forall|
            i: int,
        |
            0 <= i < k ==> is_lower_alnum(#[trigger] s[i]) || s[i] == '-') && is_token_run(
            s.subrange(k + 1, s.len() as int),
            |c: char| is_literal_text(c),
        )
}

/// Three octets each followed by a dot, then an octet or a general literal.
pub open spec fn is_literal_body(s: Seq<char>) -> bool {
    exists|a: int, b: int, c: int|
        0 < a < b < c < s.len() - 1 && #[trigger] s[a] == '.' && #[trigger] s[b] == '.'
            && #[trigger] s[c] == '.' && is_octet(s.subrange(0, a)) && is_octet(
            s.subrange(a + 1, b),
        ) && is_octet(s.subrange(b + 1, c)) && (is_octet(s.subrange(c + 1, s.len() as int))
            || is_general_literal(s.subrange(c + 1, s.len() as int)))
}

/// An address literal in square brackets.
pub open spec fn is_address_literal(s: Seq<char>) -> bool {
    &&& s.len() >= 2
    &&& s[0] == '['
    &&& s.last() == ']'
    &&& is_literal_body(s.subrange(1, s.len() - 1))
}

pub open spec fn is_domain(s: Seq<char>) -> bool {
    is_domain_name(s) || is_address_literal(s)
}

/// The whole of `s` is an email address of the grammar.
pub open spec fn is_email(s: Seq<char>) -> bool {
    exists|k: int|
        0 <= k < s.len() && #[trigger] s[k] == '@' && is_local_part(s.subrange(0, k)) && is_domain(
            s.subrange(k + 1, s.len() as int),
        )
}

/// No character of a token run is a line feed, when neither `plain` nor the
/// escapable characters admit one.
pub proof fn lemma_token_run_no_newline(s: Seq<char>, plain: spec_fn(char) -> bool)
    requires
        is_token_run(s, plain),
        !plain('\n'),
    ensures
        forall|i: int| 0 <= i < s.len() ==> #[trigger] s[i] != '\n',
    decreases s.len(),
{
    if s.len() > 0 {
        if plain(s[0]) && is_token_run(s.drop_first(), plain) {
            lemma_token_run_no_newline(s.drop_first(), plain);
            assert forall|i: int| 0 <= i < s.len() implies #[trigger] s[i] != '\n' by {
                if i > 0 {
                    assert(s[i] == s.drop_first()[i - 1]);
                }
            }
        } else {
            lemma_token_run_no_newline(s.skip(2), plain);
            assert forall|i: int| 0 <= i < s.len() implies #[trigger] s[i] != '\n' by {
                if i > 1 {
                    assert(s[i] == s.skip(2)[i - 2]);
                }
            }
        }
    }
}

/// An email address of the grammar never holds a line feed, so that a list of
/// them joined by line feeds splits back into the same list.
pub proof fn lemma_email_has_no_newline(s: Seq<char>)
    requires
        is_email(s),
    ensures
        forall|i: int| 0 <= i < s.len() ==> #[trigger] s[i] != '\n',
{
    let k = choose|k: int|
        0 <= k < s.len() && #[trigger] s[k] == '@' && is_local_part(s.subrange(0, k)) && is_domain(
            s.subrange(k + 1, s.len() as int),
        );
    let local = s.subrange(0, k);
    let dom = s.subrange(k + 1, s.len() as int);
    if is_quoted_local(local) {
        let inner = local.subrange(1, local.len() - 1);
        lemma_token_run_no_newline(inner, |c: char| is_quoted_text(c));
        assert forall|i: int| 0 <= i < local.len() implies #[trigger] local[i] != '\n' by {
            if 0 < i < local.len() - 1 {
                assert(local[i] == inner[i - 1]);
            }
        }
    }
    if is_address_literal(dom) {
        let body = dom.subrange(1, dom.len() - 1);
        let (a, b, c) = choose|a: int, b: int, c: int|
            0 < a < b < c < body.len() - 1 && #[trigger] body[a] == '.' && #[trigger] body[b]
                == '.' && #[trigger] body[c] == '.' && is_octet(body.subrange(0, a)) && is_octet(
                body.subrange(a + 1, b),
            ) && is_octet(body.subrange(b + 1, c)) && (is_octet(
                body.subrange(c + 1, body.len() as int),
            ) || is_general_literal(body.subrange(c + 1, body.len() as int)));
        let last = body.subrange(c + 1, body.len() as int);
        if !is_octet(last) {
            let j = choose|j: int|
                0 < j < last.len() - 1 && #[trigger] last[j] == ':' && is_lower_alnum(last[j - 1])
                    && (forall|i: int|
                    0 <= i < j ==> is_lower_alnum(#[trigger] last[i]) || last[i] == '-')
                    && is_token_run(
                    last.subrange(j + 1, last.len() as int),
                    |c: char| is_literal_text(c),
                );
            let run = last.subrange(j + 1, last.len() as int);
            lemma_token_run_no_newline(run, |c: char| is_literal_text(c));
            assert forall|i: int| 0 <= i < last.len() implies #[trigger] last[i] != '\n' by {
                if i > j {
                    assert(last[i] == run[i - j - 1]);
                }
            }
        }
        assert forall|i: int| 0 <= i < body.len() implies #[trigger] body[i] != '\n' by {
            if i < a {
                assert(body[i] == body.subrange(0, a)[i]);
            } else if a < i < b {
                assert(body[i] == body.subrange(a + 1, b)[i - a - 1]);
            } else if b < i < c {
                assert(body[i] == body.subrange(b + 1, c)[i - b - 1]);
            } else if i > c {
                assert(body[i] == last[i - c - 1]);
            }
        }
        assert forall|i: int| 0 <= i < dom.len() implies #[trigger] dom[i] != '\n' by {
            if 0 < i < dom.len() - 1 {
                assert(dom[i] == body[i - 1]);
            }
        }
    }
    assert forall|i: int| 0 <= i < s.len() implies #[trigger] s[i] != '\n' by {
        if i < k {
            assert(s[i] == local[i]);
        } else if i > k {
            assert(s[i] == dom[i - k - 1]);
        }
    }
}

} // verus!
