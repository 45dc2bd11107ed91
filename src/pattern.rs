//! URL templates turned into regular expressions, and the test of a request
//! path against them.
//!
//! In a template's expression each `{name}` becomes `.*` and every other
//! character stands for itself. The expression ends with `DELIMITER`, and each
//! path is tested with the delimiter appended. The regex search finds a match
//! anywhere in the path, so without the delimiter the expression of
//! `/rest/api/{id}/issue` would be found inside `/rest/api/123/issue-extra`;
//! with it, the expression must reach the end of the path.
use vstd::prelude::*;

verus! {

/// The character appended to a template's pattern and to each path tested
/// against it.
pub const DELIMITER: char = '#';

/// A unit of a template's expression.
#[derive(PartialEq, Eq, Structural, Debug, Clone, Copy)]
pub enum Token {
    /// Exactly this character.
    Lit(char),
    /// Any run of characters, the empty one included.
    Any,
}

/// The sequence of the one token `t`.
pub open spec fn single(t: Token) -> Seq<Token> {
    Seq::empty().push(t)
}

/// The tokens of a template: each `{name}` is a wildcard, every other
/// character stands for itself. A `{` with no `}` after it stands for itself.
pub open spec fn template_tokens(k: Seq<char>) -> Seq<Token>
    decreases k.len(),
{
    if k.len() == 0 {
        Seq::empty()
    } else if k[0] == '{' && k.skip(1).contains('}') {
        seq![Token::Any] + tokens_after_close(k.skip(1))
    } else {
        single(Token::Lit(k[0])) + template_tokens(k.skip(1))
    }
}

/// The tokens of what follows the first `}` of `k`.
pub open spec fn tokens_after_close(k: Seq<char>) -> Seq<Token>
    decreases k.len(),
{
    if k.len() == 0 {
        Seq::empty()
    } else if k[0] == '}' {
        template_tokens(k.skip(1))
    } else {
        tokens_after_close(k.skip(1))
    }
}

/// Whether a character has a meaning of its own in a regular expression, and
/// is escaped to stand for itself.
pub open spec fn is_special(c: char) -> bool {
    c == '\\' || c == '.' || c == '+' || c == '*' || c == '?' || c == '(' || c == ')' || c == '|'
        || c == '[' || c == ']' || c == '{' || c == '}' || c == '^' || c == '$' || c == '#'
        || c == '&' || c == '-' || c == '~'
}

/// How one token is written in a regular expression.
pub open spec fn encode_token(t: Token) -> Seq<char> {
    match t {
        Token::Any => seq!['.', '*'],
        Token::Lit(c) => if is_special(c) {
            seq!['\\', c]
        } else {
            seq![c]
        },
    }
}

/// How a sequence of tokens is written in a regular expression.
pub open spec fn encode(ts: Seq<Token>) -> Seq<char>
    decreases ts.len(),
{
    if ts.len() == 0 {
        Seq::empty()
    } else {
        encode_token(ts[0]) + encode(ts.skip(1))
    }
}

/// The expression stored for a template: its tokens written out, followed by
/// the delimiter.
pub open spec fn endpoint_pattern(k: Seq<char>) -> Seq<char> {
    encode(template_tokens(k)) + encode_token(Token::Lit(DELIMITER))
}

/// Whether the regular expression `p` compiles and finds a match somewhere
/// in `t`.
pub uninterp spec fn regex_match(p: Seq<char>, t: Seq<char>) -> bool;

/// Whether the expression `p` accepts the request path `url`: it is found in
/// the path with the delimiter appended.
pub open spec fn accepts(p: Seq<char>, url: Seq<char>) -> bool {
    regex_match(p, url.push(DELIMITER))
}

/// Relies on `regex::Regex::new` and `regex::Regex::is_match`: whether the
/// expression compiles and has a match anywhere in the text. An expression
/// that does not compile matches nothing.
#[verifier::external_body]
fn regex_is_match(pattern: &str, text: &str) -> (r: bool)
    ensures
        r == regex_match(pattern@, text@),
{
    match regex::Regex::new(pattern) {
        Ok(re) => re.is_match(text),
        Err(_) => false,
    }
}

proof fn lemma_encode_cons(t: Token, ts: Seq<Token>)
    ensures
        encode(seq![t] + ts) == encode_token(t) + encode(ts),
{
    assert((seq![t] + ts).skip(1) =~= ts);
}

proof fn lemma_after_close_at(k: Seq<char>, j: int)
    requires
        0 <= j < k.len(),
        k[j] == '}',
        forall|x: int| 0 <= x < j ==> k[x] != '}',
    ensures
        tokens_after_close(k) == template_tokens(k.skip(j + 1)),
    decreases j,
{
    if j > 0 {
        lemma_after_close_at(k.skip(1), j - 1);
        assert(k.skip(1).skip(j) =~= k.skip(j + 1));
    }
}

/// Index of the first `}` of `k` at or after `from`, if any.
fn find_close(k: &str, n: usize, from: usize) -> (r: Option<usize>)
    requires
        n == k@.len(),
        from <= n,
    ensures
        match r {
            Some(j) => from <= j < n && k@[j as int] == '}' && forall|x: int|
                from <= x < j ==> k@[x] != '}',
            None => forall|x: int| from <= x < n ==> k@[x] != '}',
        },
{
    let mut j: usize = from;
    while j < n
        invariant
            n == k@.len(),
            from <= j <= n,
            forall|x: int| from <= x < j ==> k@[x] != '}',
        decreases n - j,
    {
        if k.get_char(j) == '}' {
            return Some(j);
        }
        j = j + 1;
    }
    None
}

fn is_special_exec(c: char) -> (r: bool)
    ensures
        r == is_special(c),
{
    c == '\\' || c == '.' || c == '+' || c == '*' || c == '?' || c == '(' || c == ')' || c == '|'
        || c == '[' || c == ']' || c == '{' || c == '}' || c == '^' || c == '$' || c == '#'
        || c == '&' || c == '-' || c == '~'
}

/// The regular expression for an endpoint template: each `{name}` segment
/// becomes `.*`, every other character is written to stand for itself (with a
/// `\` before each character that the syntax gives a meaning), and the escaped
/// delimiter is appended.
pub fn find_regex_for_endpoint(key: &str) -> (r: String)
    ensures
        r@ == endpoint_pattern(key@),
{
    let n: usize = key.unicode_len();
    let mut out = String::new();
    let mut i: usize = 0;
    proof {
        assert(key@.skip(0) =~= key@);
    }
    while i < n
        invariant
            n == key@.len(),
            i <= n,
            out@ + encode(template_tokens(key@.skip(i as int))) == encode(template_tokens(key@)),
        decreases n - i,
    {
        let c = key.get_char(i);
        let rest = Ghost(key@.skip(i as int));
        let close = if c == '{' {
            find_close(key, n, i + 1)
        } else {
            None
        };
        match close {
            Some(j) => {
                proof {
                    assert(rest@.skip(1).contains('}')) by {
                        assert(rest@.skip(1)[j - i - 1] == '}');
                    }
                    lemma_after_close_at(rest@.skip(1), j - i - 1);
                    assert(rest@.skip(1).skip(j - i) =~= key@.skip(j + 1));
                    lemma_encode_cons(Token::Any, template_tokens(key@.skip(j + 1)));
                }
                out.append(".*");
                proof {
                    reveal_strlit(".*");
                }
                i = j + 1;
            },
            None => {
                proof {
                    if c == '{' {
                        assert(!rest@.skip(1).contains('}')) by {
                            if rest@.skip(1).contains('}') {
                                let x = choose|x: int|
                                    0 <= x < rest@.skip(1).len() && rest@.skip(1)[x] == '}';
                                assert(key@[i + 1 + x] == '}');
                            }
                        }
                    }
                    assert(rest@.skip(1) =~= key@.skip(i + 1));
                    lemma_encode_cons(Token::Lit(c), template_tokens(key@.skip(i + 1)));
                }
                if is_special_exec(c) {
                    out.append("\\");
                    proof {
                        reveal_strlit("\\");
                    }
                }
                let one = key.substring_char(i, i + 1);
                proof {
                    assert(one@ =~= seq![c]);
                }
                out.append(one);
                i = i + 1;
            },
        }
    }
    proof {
        assert(key@.skip(n as int) =~= Seq::<char>::empty());
    }
    out.append("\\#");
    proof {
        reveal_strlit("\\#");
        assert("\\#"@ =~= encode_token(Token::Lit(DELIMITER)));
    }
    out
}

/// Whether the expression `pattern` accepts the request path `url`: it is
/// found in the path with the delimiter appended.
pub fn pattern_accepts(pattern: &str, url: &str) -> (r: bool)
    ensures
        r == accepts(pattern@, url@),
{
    let mut text = String::from_str(url);
    text.append("#");
    proof {
        reveal_strlit("#");
        assert(text@ =~= url@.push(DELIMITER));
    }
    regex_is_match(pattern, text.as_str())
}

} // verus!
