//! The reader: from text to tokens, and from tokens to one expression.

use crate::numeral::{
    decimal, digits, is_digit, is_numeral, lemma_decimal, lemma_digits, numeral_i32, parse_i32,
};
use crate::types::{lemma_view_items, outcome, printed, MalErr, MalType, Value};
use regex::Regex;
use vstd::prelude::*;
use vstd::string::{StrSliceExecFns, StringExecFns};

verus! {

/// A token: separators, then a `~@`, one special character, a string, a comment, or a
/// run of other characters. Group 1 is the token without its separators.
pub const TOKEN_PATTERN: &'static str =
    r###"[\s,]*(~@|[\[\]{}()'`~^@]|"(?:\\.|[^\\"])*"?|;.*|[^\s\[\]{}('"`,;)]*)"###;

/// An integer literal.
pub const INT_PATTERN: &'static str = r"^-?[0-9]+$";

/// A string between double quotes, on one line.
pub const STR_PATTERN: &'static str = r#"^"(.)*"$"#;

/// A keyword: a colon and the rest of a line.
pub const KEY_PATTERN: &'static str = r"^:(.*)*$";

/// The texts of group 1 in the successive matches of a pattern in a text, as the regex
/// crate finds them; nothing where the pattern does not compile.
pub uninterp spec fn regex_groups(pattern: Seq<char>, text: Seq<char>) -> Option<Seq<Seq<char>>>;

/// The models of the tokens, in order.
pub open spec fn token_views(tokens: Seq<String>) -> Seq<Seq<char>> {
    Seq::new(tokens.len(), |i: int| tokens[i]@)
}

/// The model of what matching gave.
pub open spec fn groups_view(r: Option<Vec<String>>) -> Option<Seq<Seq<char>>> {
    match r {
        Some(g) => Some(token_views(g@)),
        None => None,
    }
}

/// Whether a text is made of lower-case letters, digits and `-` alone, and not empty.
pub open spec fn plain_word(s: Seq<char>) -> bool {
    s.len() >= 1 && forall|i: int|
        0 <= i < s.len() ==> is_digit(#[trigger] s[i]) || ('a' <= s[i] && s[i] <= 'z') || s[i]
            == '-'
}

/// Whether a text is what the string pattern matches: it starts and ends with a
/// double quote, two characters at least, with no line feed between them.
pub open spec fn is_quoted(s: Seq<char>) -> bool {
    s.len() >= 2 && s[0] == '"' && s[s.len() - 1] == '"' && forall|i: int|
        0 < i < s.len() - 1 ==> #[trigger] s[i] != '\n'
}

/// Whether a text is a keyword: a colon, then no line feed.
pub open spec fn is_keyword(s: Seq<char>) -> bool {
    s.len() >= 1 && s[0] == ':' && forall|i: int| 0 < i < s.len() ==> #[trigger] s[i] != '\n'
}

/// The text of group 1 in each successive match of `pattern` in `text`, empty where the
/// group took no part in a match: `Regex::captures_iter` of the regex crate, on a
/// pattern compiled by `Regex::new`. Nothing where the pattern does not compile. The
/// token pattern compiles, and a plain word is one match of it, the word itself.
#[verifier::external_body]
fn capture_groups(pattern: &str, text: &str) -> (r: Option<Vec<String>>)
    ensures
        groups_view(r) == regex_groups(pattern@, text@),
        pattern@ == TOKEN_PATTERN@ ==> r is Some,
        pattern@ == TOKEN_PATTERN@ && plain_word(text@) ==> groups_view(r) == Some(seq![text@]),
{
    match Regex::new(pattern) {
        Ok(re) => Some(
            re.captures_iter(text).map(
                |c| c.get(1).map(|m| m.as_str().to_string()).unwrap_or_default(),
            ).collect(),
        ),
        Err(_) => None,
    }
}

/// Whether `pattern` matches somewhere in `text`: `Regex::is_match` of the regex crate,
/// on a pattern compiled by `Regex::new`. Nothing where the pattern does not compile.
/// The three patterns for atoms compile, and each is anchored at both ends, so it
/// matches exactly the texts of its shape.
#[verifier::external_body]
fn pattern_matches(pattern: &str, text: &str) -> (r: Option<bool>)
    ensures
        pattern@ == INT_PATTERN@ ==> r == Some(is_numeral(text@)),
        pattern@ == STR_PATTERN@ ==> r == Some(is_quoted(text@)),
        pattern@ == KEY_PATTERN@ ==> r == Some(is_keyword(text@)),
{
    match Regex::new(pattern) {
        Ok(re) => Some(re.is_match(text)),
        Err(_) => None,
    }
}

/// Whether a token counts: it is not empty and not a comment.
pub open spec fn is_significant(t: Seq<char>) -> bool {
    t.len() > 0 && t[0] != ';'
}

/// The tokens that count, in order.
pub open spec fn significant(tokens: Seq<Seq<char>>) -> Seq<Seq<char>> {
    tokens.filter(|t: Seq<char>| is_significant(t))
}

/// How many backslashes stand in a row just before the place `end`, the first
/// character of the text left out.
pub open spec fn backslashes_before(s: Seq<char>, end: int) -> nat
    decreases end,
{
    if end <= 1 || end > s.len() || s[end - 1] != '\\' {
        0
    } else {
        1 + backslashes_before(s, end - 1)
    }
}

/// Whether a text that starts with a double quote is a closed string: it ends with a
/// second double quote that no backslash escapes, which is so where the backslashes
/// in a row before it are even in number.
pub open spec fn is_closed(s: Seq<char>) -> bool {
    s.len() >= 2 && s[0] == '"' && s[s.len() - 1] == '"' && backslashes_before(s, s.len() - 1) % 2
        == 0
}

/// What an atom's token stands for: `nil`, `true` or `false`; else an integer, which
/// must fit in 32 bits; else, where it starts with a double quote, a string, which
/// must be closed; else a keyword; else a symbol.
pub open spec fn atom_spec(t: Seq<char>) -> Result<Value, MalErr> {
    if t == "nil"@ {
        Ok(Value::Nil)
    } else if t == "true"@ {
        Ok(Value::Bool(true))
    } else if t == "false"@ {
        Ok(Value::Bool(false))
    } else if is_numeral(t) {
        match numeral_i32(t) {
            Some(n) => Ok(Value::Int(n)),
            None => Err(MalErr::ParseError),
        }
    } else if t.len() > 0 && t[0] == '"' {
        if is_closed(t) {
            Ok(Value::Str(t))
        } else {
            Err(MalErr::ParseError)
        }
    } else if is_keyword(t) {
        Ok(Value::Keyword(t))
    } else {
        Ok(Value::Sym(t))
    }
}

/// The expression that starts at `pos`, and the position after it: a list where the
/// token is `(`, an atom otherwise. Where no token is left, at the end or beyond it,
/// this is a parse error at the same position.
pub open spec fn read_form_spec(tokens: Seq<Seq<char>>, pos: nat) -> (Result<Value, MalErr>, nat)
    decreases tokens.len() - pos, 0nat,
{
    if pos >= tokens.len() {
        (Err(MalErr::ParseError), pos)
    } else if tokens[pos as int] == "("@ {
        read_list_spec(tokens, pos + 1, Seq::empty())
    } else {
        (atom_spec(tokens[pos as int]), pos + 1)
    }
}

/// The rest of a list whose items so far are `acc`: expressions up to the closing
/// bracket. Where no token is left, at the end or beyond it, this is an
/// unexpected-token error at the same position.
pub open spec fn read_list_spec(tokens: Seq<Seq<char>>, pos: nat, acc: Seq<Value>) -> (
    Result<Value, MalErr>,
    nat,
)
    decreases tokens.len() - pos, 1nat,
{
    if pos >= tokens.len() {
        (Err(MalErr::UnexpectedToken), pos)
    } else if tokens[pos as int] == ")"@ {
        (Ok(Value::List(acc)), pos + 1)
    } else {
        let (r, p) = read_form_spec(tokens, pos);
        match r {
            Ok(v) => if pos < p <= tokens.len() {
                read_list_spec(tokens, p, acc.push(v))
            } else {
                (Err(MalErr::ParseError), p)
            },
            Err(e) => (Err(e), p),
        }
    }
}

/// The first expression among the tokens that count.
pub open spec fn read_tokens_spec(tokens: Seq<Seq<char>>) -> Result<Value, MalErr> {
    read_form_spec(significant(tokens), 0).0
}

/// The first expression of a text's tokens, as far as matching gave any.
pub open spec fn read_groups_spec(groups: Option<Seq<Seq<char>>>) -> Result<Value, MalErr> {
    match groups {
        Some(tokens) => read_tokens_spec(tokens),
        None => Err(MalErr::ParseError),
    }
}

/// Whether a text is the printed form of `nil`, of a boolean or of a 32-bit integer.
pub open spec fn is_literal(text: Seq<char>) -> bool {
    text == "nil"@ || text == "true"@ || text == "false"@ || exists|n: i32|
        text == #[trigger] decimal(n as int)
}

/// Reading the printed form of `nil`, of a boolean or of an integer, and printing what
/// was read, gives the text back. Such a text is a plain word.
pub proof fn lemma_literal_round_trip(text: Seq<char>)
    requires
        is_literal(text),
    ensures
        plain_word(text),
        atom_spec(text) is Ok,
        printed(atom_spec(text)->Ok_0) == text,
{
    reveal_strlit("nil");
    reveal_strlit("true");
    reveal_strlit("false");
    if text == "nil"@ || text == "true"@ || text == "false"@ {
    } else {
        let n = choose|n: i32| text == #[trigger] decimal(n as int);
        lemma_decimal(n as int);
        if n < 0 {
            lemma_digits((-(n as int)) as nat);
            let ds = digits((-(n as int)) as nat);
            assert(text.subrange(1, text.len() as int) =~= ds);
            assert forall|i: int| 0 <= i < text.len() implies is_digit(#[trigger] text[i])
                || text[i] == '-' by {
                if i > 0 {
                    assert(text[i] == ds[i - 1]);
                }
            }
        } else {
            lemma_digits(n as nat);
        }
        assert(numeral_i32(text) == Some(n));
    }
}

/// Whether two texts are the same.
fn same_text(a: &str, b: &str) -> (r: bool)
    ensures
        r == (a@ == b@),
{
    String::from_str(a) == String::from_str(b)
}

/// Tokens and a position among them.
pub struct Reader {
    pub tokens: Vec<String>,
    pub pos: usize,
}

impl Reader {
    /// The token at the position, or nothing at the end or beyond it; the position
    /// moves on by one either way.
    pub fn next(&mut self) -> (r: Option<String>)
        requires
            old(self).pos < usize::MAX,
        ensures
            final(self).tokens == old(self).tokens,
            final(self).pos == old(self).pos + 1,
            old(self).pos < old(self).tokens@.len() ==> r is Some && r->Some_0@ == old(
                self,
            ).tokens@[old(self).pos as int]@,
            old(self).pos >= old(self).tokens@.len() ==> r is None,
    {
        let at = self.pos;
        self.pos = self.pos + 1;
        if at < self.tokens.len() {
            Some(self.tokens[at].clone())
        } else {
            None
        }
    }

    /// The token at the position; nothing at the end or beyond it. A position that
    /// has a token can move on.
    pub fn peek(&self) -> (r: Option<String>)
        ensures
            self.pos < self.tokens@.len() ==> r is Some && r->Some_0@ == self.tokens@[self.pos as int]@,
            self.pos >= self.tokens@.len() ==> r is None,
            r is Some ==> self.pos < usize::MAX,
    {
        if self.pos < self.tokens.len() {
            Some(self.tokens[self.pos].clone())
        } else {
            None
        }
    }
}

/// Whether a text is a closed string.
fn closed_string(text: &str) -> (r: bool)
    ensures
        r == is_closed(text@),
{
    let n = text.unicode_len();
    if n < 2 || text.get_char(0) != '"' || text.get_char(n - 1) != '"' {
        return false;
    }
    let mut end: usize = n - 1;
    let mut even = true;
    while end > 1 && text.get_char(end - 1) == '\\'
        invariant
            n == text@.len(),
            1 <= end <= n - 1,
            backslashes_before(text@, n - 1) == (n - 1 - end) + backslashes_before(
                text@,
                end as int,
            ),
            even == ((n - 1 - end) % 2 == 0),
        decreases end,
    {
        even = !even;
        end -= 1;
    }
    even
}

/// Reads the atom at the position and moves past it. Where no token is left, this is a
/// parse error and the position stays.
pub fn read_atom(rd: &mut Reader) -> (r: Result<MalType, MalErr>)
    ensures
        final(rd).tokens == old(rd).tokens,
        old(rd).pos < old(rd).tokens@.len() ==> final(rd).pos == old(rd).pos + 1 && outcome(r)
            == atom_spec(old(rd).tokens@[old(rd).pos as int]@),
        old(rd).pos >= old(rd).tokens@.len() ==> final(rd).pos == old(rd).pos && outcome(r)
            == Err::<Value, MalErr>(MalErr::ParseError),
{
    if rd.pos >= rd.tokens.len() {
        return Err(MalErr::ParseError);
    }
    let token = match rd.next() {
        Some(t) => t,
        None => {
            return Err(MalErr::ParseError);
        },
    };
    let text = token.as_str();
    if same_text(text, "nil") {
        Ok(MalType::Nil)
    } else if same_text(text, "true") {
        Ok(MalType::Bool(true))
    } else if same_text(text, "false") {
        Ok(MalType::Bool(false))
    } else if pattern_matches(INT_PATTERN, text) == Some(true) {
        match parse_i32(text) {
            Some(n) => Ok(MalType::Int(n)),
            None => Err(MalErr::ParseError),
        }
    } else if pattern_matches(STR_PATTERN, text) == Some(true) || (!text.is_empty()
        && text.get_char(0) == '"') {
        if closed_string(text) {
            Ok(MalType::Str(token))
        } else {
            Err(MalErr::ParseError)
        }
    } else if pattern_matches(KEY_PATTERN, text) == Some(true) {
        Ok(MalType::Keyword(token))
    } else {
        Ok(MalType::Sym(token))
    }
}

/// Reads the expression at the position and moves past it. Where no token is left,
/// this is a parse error and the position stays.
pub fn read_form(rd: &mut Reader) -> (r: Result<MalType, MalErr>)
    ensures
        final(rd).tokens == old(rd).tokens,
        old(rd).pos <= old(rd).tokens@.len() ==> final(rd).pos <= final(rd).tokens@.len(),
        old(rd).pos >= old(rd).tokens@.len() ==> final(rd).pos == old(rd).pos && outcome(r)
            == Err::<Value, MalErr>(MalErr::ParseError),
        r is Ok ==> old(rd).pos < final(rd).pos,
        (outcome(r), final(rd).pos as nat) == read_form_spec(
            token_views(old(rd).tokens@),
            old(rd).pos as nat,
        ),
    decreases old(rd).tokens@.len() - old(rd).pos, 0nat,
{
    match rd.peek() {
        Some(token) => {
            if same_text(token.as_str(), "(") {
                let _ = rd.next();
                read_list(rd)
            } else {
                read_atom(rd)
            }
        },
        None => Err(MalErr::ParseError),
    }
}

/// Reads the items of a list up to its closing bracket and moves past it. Where the
/// tokens end first, this is an unexpected-token error; where none is left at the
/// start, the position stays.
pub fn read_list(rd: &mut Reader) -> (r: Result<MalType, MalErr>)
    ensures
        final(rd).tokens == old(rd).tokens,
        old(rd).pos <= old(rd).tokens@.len() ==> final(rd).pos <= final(rd).tokens@.len(),
        old(rd).pos >= old(rd).tokens@.len() ==> final(rd).pos == old(rd).pos && outcome(r)
            == Err::<Value, MalErr>(MalErr::UnexpectedToken),
        r is Ok ==> old(rd).pos < final(rd).pos,
        (outcome(r), final(rd).pos as nat) == read_list_spec(
            token_views(old(rd).tokens@),
            old(rd).pos as nat,
            Seq::empty(),
        ),
    decreases old(rd).tokens@.len() - old(rd).pos, 1nat,
{
    let mut items: Vec<MalType> = Vec::new();
    let ghost tokens = token_views(rd.tokens@);
    let ghost start = rd.pos as nat;
    assert(crate::types::views(items@) =~= Seq::<Value>::empty());
    loop
        invariant
            rd.tokens == old(rd).tokens,
            tokens == token_views(rd.tokens@),
            start == old(rd).pos,
            start <= rd.pos,
            start <= rd.tokens@.len() ==> rd.pos <= rd.tokens@.len(),
            rd.pos > start ==> rd.pos <= rd.tokens@.len(),
            read_list_spec(tokens, start, Seq::empty()) == read_list_spec(
                tokens,
                rd.pos as nat,
                crate::types::views(items@),
            ),
        decreases rd.tokens@.len() - rd.pos,
    {
        match rd.peek() {
            Some(token) => {
                if same_text(token.as_str(), ")") {
                    let _ = rd.next();
                    let r = MalType::List(items);
                    proof {
                        lemma_view_items(r);
                    }
                    return Ok(r);
                }
            },
            None => {
                return Err(MalErr::UnexpectedToken);
            },
        }
        let ghost before = crate::types::views(items@);
        match read_form(rd) {
            Ok(v) => {
                items.push(v);
                assert(crate::types::views(items@) =~= before.push(v@));
            },
            Err(e) => {
                return Err(e);
            },
        }
    }
}

/// The tokens of a text that count: what the token pattern matches in it, without the
/// empty tokens and the comments.
pub fn tokenize(s: &str) -> (r: Option<Vec<String>>)
    ensures
        groups_view(r) == (match regex_groups(TOKEN_PATTERN@, s@) {
            Some(g) => Some(significant(g)),
            None => None,
        }),
        r is Some,
        plain_word(s@) ==> groups_view(r) == Some(seq![s@]),
{
    match capture_groups(TOKEN_PATTERN, s) {
        Some(raw) => {
            let kept = keep_significant(&raw);
            proof {
                if plain_word(s@) {
                    let g = token_views(raw@);
                    assert(g =~= seq![s@]);
                    assert(is_digit(s@[0]) || ('a' <= s@[0] && s@[0] <= 'z') || s@[0] == '-');
                    assert(is_significant(s@));
                    reveal_with_fuel(Seq::filter, 2);
                    assert(g.drop_last() =~= Seq::<Seq<char>>::empty());
                    assert(significant(g) =~= seq![s@]);
                }
            }
            Some(kept)
        },
        None => None,
    }
}

/// The tokens that count, in order.
pub fn keep_significant(raw: &Vec<String>) -> (r: Vec<String>)
    ensures
        token_views(r@) == significant(token_views(raw@)),
{
    let mut out: Vec<String> = Vec::new();
    let mut i: usize = 0;
    let ghost all = token_views(raw@);
    proof {
        reveal(Seq::filter);
        assert(token_views(out@) =~= significant(all.subrange(0, 0)));
    }
    while i < raw.len()
        invariant
            i <= raw@.len(),
            all == token_views(raw@),
            token_views(out@) == significant(all.subrange(0, i as int)),
        decreases raw@.len() - i,
    {
        let ghost before = token_views(out@);
        let text = raw[i].as_str();
        proof {
            reveal(Seq::filter);
            let upto = all.subrange(0, i + 1);
            assert(upto.drop_last() =~= all.subrange(0, i as int));
            assert(upto.last() == raw@[i as int]@);
        }
        if !text.is_empty() && text.get_char(0) != ';' {
            out.push(raw[i].clone());
            assert(token_views(out@) =~= before.push(raw@[i as int]@));
        }
        i += 1;
    }
    assert(all.subrange(0, raw@.len() as int) =~= all);
    out
}

/// Reads the first expression of the tokens.
pub fn read_tokens(tokens: Vec<String>) -> (r: Result<MalType, MalErr>)
    ensures
        outcome(r) == read_form_spec(token_views(tokens@), 0).0,
{
    let mut reader = Reader { tokens, pos: 0 };
    read_form(&mut reader)
}

/// Reads the first expression of a text.
pub fn read_str(s: &str) -> (r: Result<MalType, MalErr>)
    ensures
        outcome(r) == read_groups_spec(regex_groups(TOKEN_PATTERN@, s@)),
        plain_word(s@) ==> outcome(r) == atom_spec(s@),
        is_literal(s@) ==> r is Ok && printed(r->Ok_0@) == s@,
{
    match tokenize(s) {
        Some(tokens) => {
            proof {
                if is_literal(s@) {
                    lemma_literal_round_trip(s@);
                }
                if plain_word(s@) {
                    reveal_strlit("(");
                    assert(token_views(tokens@)[0] == s@);
                    assert(is_digit(s@[0]) || ('a' <= s@[0] && s@[0] <= 'z') || s@[0] == '-');
                }
            }
            read_tokens(tokens)
        },
        None => Err(MalErr::ParseError),
    }
}

} // verus!
