//! Quoted literals, which may hold spaces, and the place in a line that is
//! marked as its words are read.

use crate::table::string_views;
use crate::text::{
    byte_len, byte_len_one, byte_len_sum, measure, push_all, slice_of, string_of, views,
};
use vstd::prelude::*;

verus! {

/// The most that the first `n` words of a line move the place that is
/// marked: for each its bytes and four more.
pub open spec fn weight(tokens: Seq<Seq<char>>, n: int) -> nat
    decreases n,
{
    if n <= 0 {
        0
    } else {
        weight(tokens, n - 1) + byte_len(tokens[n - 1]) + 4
    }
}

/// More words weigh no less.
pub proof fn weight_grows(tokens: Seq<Seq<char>>, a: int, b: int)
    requires
        a <= b,
    ensures
        weight(tokens, a) <= weight(tokens, b),
    decreases b - a,
{
    if a < b {
        weight_grows(tokens, a, b - 1);
    }
}

/// The bytes of each word of a line, where the weight of the line can be
/// counted.
pub fn sizes_of(tokens: &Vec<Vec<char>>) -> (r: Option<Vec<usize>>)
    ensures
        match r {
            Some(sizes) => sizes@.len() == tokens@.len() && (forall|k: int|
                0 <= k < sizes@.len() ==> #[trigger] sizes@[k] == byte_len(views(tokens@)[k]))
                && weight(views(tokens@), tokens@.len() as int) <= usize::MAX,
            None => weight(views(tokens@), tokens@.len() as int) > usize::MAX,
        },
{
    let ghost all = views(tokens@);
    let mut sizes: Vec<usize> = Vec::new();
    let mut total: usize = 0;
    let mut i: usize = 0;
    while i < tokens.len()
        invariant
            i <= tokens.len(),
            all == views(tokens@),
            sizes@.len() == i,
            forall|k: int| 0 <= k < i ==> #[trigger] sizes@[k] == byte_len(all[k]),
            total == weight(all, i as int),
        decreases tokens.len() - i,
    {
        assert(all[i as int] == tokens@[i as int]@);
        proof {
            weight_grows(all, i + 1, tokens@.len() as int);
        }
        let size = match measure(&tokens[i]) {
            Some(n) => n,
            None => {
                return None;
            },
        };
        let next = match total.checked_add(size) {
            Some(n) => n.checked_add(4),
            None => None,
        };
        match next {
            Some(n) => {
                total = n;
            },
            None => {
                return None;
            },
        }
        sizes.push(size);
        i += 1;
    }
    Some(sizes)
}

/// A quoted literal: its text, the place of the word after it, and whether
/// it was closed.
pub struct Literal {
    pub text: Seq<char>,
    pub next: int,
    pub closed: bool,
}

/// The rest of a literal that the word before `k` has opened: the words up
/// to the one that ends with a quote, each after a space; or all words that
/// are left, where none ends with a quote.
pub open spec fn literal_tail(tokens: Seq<Seq<char>>, k: int, so_far: Seq<char>) -> Literal
    decreases tokens.len() - k,
{
    if k < 0 || k >= tokens.len() {
        Literal { text: so_far, next: tokens.len() as int, closed: false }
    } else if tokens[k].len() > 0 && tokens[k].last() == '"' {
        Literal { text: so_far + seq![' '] + tokens[k].drop_last(), next: k + 1, closed: true }
    } else {
        literal_tail(tokens, k + 1, so_far + seq![' '] + tokens[k])
    }
}

/// The literal that starts at word `i`: there is one where that word
/// starts with a quote. A word of more than the quote that also ends with
/// a quote is the whole literal.
pub open spec fn literal_at(tokens: Seq<Seq<char>>, i: int) -> Option<Literal> {
    if !(0 <= i < tokens.len()) || tokens[i].len() == 0 || tokens[i][0] != '"' {
        None
    } else if tokens[i].last() == '"' && tokens[i].len() != 1 {
        Some(
            Literal {
                text: tokens[i].subrange(1, tokens[i].len() - 1),
                next: i + 1,
                closed: true,
            },
        )
    } else {
        Some(literal_tail(tokens, i + 1, tokens[i].skip(1)))
    }
}

/// The rest of a literal ends after where it starts, and its bytes are
/// within the weight of its words.
pub proof fn literal_tail_weight(tokens: Seq<Seq<char>>, k: int, so_far: Seq<char>)
    requires
        0 <= k <= tokens.len(),
    ensures
        k <= literal_tail(tokens, k, so_far).next <= tokens.len(),
        byte_len(literal_tail(tokens, k, so_far).text) <= byte_len(so_far) + weight(
            tokens,
            literal_tail(tokens, k, so_far).next,
        ) - weight(tokens, k),
    decreases tokens.len() - k,
{
    if k < tokens.len() {
        let t = tokens[k];
        byte_len_sum(so_far, seq![' ']);
        byte_len_one(' ');
        if t.len() > 0 && t.last() == '"' {
            byte_len_sum(so_far + seq![' '], t.drop_last());
            assert(weight(tokens, k + 1) == weight(tokens, k) + byte_len(t) + 4);
        } else {
            byte_len_sum(so_far + seq![' '], t);
            literal_tail_weight(tokens, k + 1, so_far + seq![' '] + t);
            assert(weight(tokens, k + 1) == weight(tokens, k) + byte_len(t) + 4);
        }
    }
}

/// A literal ends after where it starts, and its bytes and three more are
/// within the weight of its words.
pub proof fn literal_weight(tokens: Seq<Seq<char>>, i: int)
    requires
        literal_at(tokens, i) is Some,
    ensures
        i < literal_at(tokens, i).unwrap().next <= tokens.len(),
        byte_len(literal_at(tokens, i).unwrap().text) + 3 <= weight(
            tokens,
            literal_at(tokens, i).unwrap().next,
        ) - weight(tokens, i),
{
    let t = tokens[i];
    assert(weight(tokens, i + 1) == weight(tokens, i) + byte_len(t) + 4);
    assert(t == seq![t[0]] + t.skip(1));
    byte_len_sum(seq![t[0]], t.skip(1));
    byte_len_one(t[0]);
    if t.last() == '"' && t.len() != 1 {
        assert(t.skip(1).drop_last() == t.subrange(1, t.len() - 1));
    } else {
        literal_tail_weight(tokens, i + 1, t.skip(1));
    }
}

/// The literal that starts at word `i`, where that word starts with a
/// quote: its text, the place of the word after it, and whether it was
/// closed.
pub fn parse_double_quote(tokens: &Vec<Vec<char>>, i: usize) -> (r: Option<
    (Vec<char>, usize, bool),
>)
    ensures
        match r {
            None => literal_at(views(tokens@), i as int) is None,
            Some((text, next, closed)) => literal_at(views(tokens@), i as int) == Some(
                Literal { text: text@, next: next as int, closed },
            ) && i < next <= tokens@.len(),
        },
{
    let ghost all = views(tokens@);
    if i >= tokens.len() {
        return None;
    }
    assert(all[i as int] == tokens@[i as int]@);
    let token_start = &tokens[i];
    if token_start.len() == 0 || token_start[0] != '"' {
        return None;
    }
    if token_start[token_start.len() - 1] == '"' && token_start.len() != 1 {
        return Some((slice_of(token_start, 1, token_start.len() - 1), i + 1, true));
    }
    let mut string = slice_of(token_start, 1, token_start.len());
    assert(string@ == all[i as int].skip(1));
    let mut k: usize = i + 1;
    while k < tokens.len()
        invariant
            i < k <= tokens.len(),
            all == views(tokens@),
            literal_at(all, i as int) == Some(literal_tail(all, i + 1, all[i as int].skip(1))),
            literal_tail(all, i + 1, all[i as int].skip(1)) == literal_tail(all, k as int, string@),
        decreases tokens.len() - k,
    {
        assert(all[k as int] == tokens@[k as int]@);
        let token = &tokens[k];
        let ghost before = string@;
        string.push(' ');
        assert(string@ == before + seq![' ']);
        if token.len() > 0 && token[token.len() - 1] == '"' {
            let body = slice_of(token, 0, token.len() - 1);
            assert(body@ == token@.drop_last());
            push_all(&mut string, &body);
            return Some((string, k + 1, true));
        } else {
            push_all(&mut string, token);
        }
        k += 1;
    }
    Some((string, tokens.len(), false))
}

/// The literals that stand one after the other in a line.
pub struct Collected {
    /// Their texts.
    pub texts: Seq<Seq<char>>,
    /// The place of the word after them.
    pub next: int,
    /// The place that is marked after them.
    pub offset: int,
    /// Whether the last of them was not closed.
    pub unclosed: bool,
    /// Where a word is no literal and literals only may stand: the place
    /// and the width to mark.
    pub failed: Option<(int, int)>,
}

/// The literals from word `i` on, with `offset` as the place that is marked
/// before them. Each moves that place by its bytes and three more. Where a
/// word does not start with a quote, the literals end; it is at fault
/// where literals only may stand.
pub open spec fn collect(
    tokens: Seq<Seq<char>>,
    i: int,
    offset: int,
    strict: bool,
    texts: Seq<Seq<char>>,
) -> Collected
    decreases tokens.len() - i,
{
    if i < 0 || i >= tokens.len() {
        Collected { texts, next: i, offset, unclosed: false, failed: None }
    } else {
        match literal_at(tokens, i) {
            None => Collected {
                texts,
                next: i,
                offset,
                unclosed: false,
                failed: if strict {
                    Some((offset, byte_len(tokens[i]) as int))
                } else {
                    None
                },
            },
            Some(lit) => if lit.next <= i || lit.next > tokens.len() || !lit.closed {
                Collected {
                    texts: texts.push(lit.text),
                    next: lit.next,
                    offset: offset + byte_len(lit.text) + 3,
                    unclosed: !lit.closed,
                    failed: None,
                }
            } else {
                collect(
                    tokens,
                    lit.next,
                    offset + byte_len(lit.text) + 3,
                    strict,
                    texts.push(lit.text),
                )
            },
        }
    }
}

/// What was collected, as it is handed on.
pub struct Gathered {
    pub texts: Vec<String>,
    pub next: usize,
    pub offset: usize,
    pub unclosed: bool,
    pub failed: Option<(usize, usize)>,
}

impl View for Gathered {
    type V = Collected;

    open spec fn view(&self) -> Collected {
        Collected {
            texts: string_views(self.texts@),
            next: self.next as int,
            offset: self.offset as int,
            unclosed: self.unclosed,
            failed: match self.failed {
                Some((o, w)) => Some((o as int, w as int)),
                None => None,
            },
        }
    }
}

/// The literals from word `i` on.
pub fn gather(tokens: &Vec<Vec<char>>, sizes: &Vec<usize>, i: usize, offset: usize, strict: bool) -> (r:
    Gathered)
    requires
        i <= tokens@.len(),
        sizes@.len() == tokens@.len(),
        forall|k: int| 0 <= k < sizes@.len() ==> #[trigger] sizes@[k] == byte_len(views(tokens@)[k]),
        weight(views(tokens@), tokens@.len() as int) <= usize::MAX,
        offset <= weight(views(tokens@), i as int),
    ensures
        r@ == collect(views(tokens@), i as int, offset as int, strict, Seq::empty()),
        i <= r.next <= tokens@.len(),
        r.offset <= weight(views(tokens@), r.next as int),
        r.failed is Some ==> r.next < tokens@.len(),
{
    let ghost all = views(tokens@);
    let mut texts: Vec<String> = Vec::new();
    let mut at: usize = i;
    let mut place: usize = offset;
    assert(string_views(texts@) =~= Seq::<Seq<char>>::empty());
    while at < tokens.len()
        invariant
            i <= at <= tokens@.len(),
            all == views(tokens@),
            sizes@.len() == tokens@.len(),
            forall|k: int| 0 <= k < sizes@.len() ==> #[trigger] sizes@[k] == byte_len(all[k]),
            weight(all, tokens@.len() as int) <= usize::MAX,
            place <= weight(all, at as int),
            collect(all, i as int, offset as int, strict, Seq::empty()) == collect(
                all,
                at as int,
                place as int,
                strict,
                string_views(texts@),
            ),
        decreases tokens.len() - at,
    {
        match parse_double_quote(tokens, at) {
            None => {
                return Gathered {
                    texts,
                    next: at,
                    offset: place,
                    unclosed: false,
                    failed: if strict {
                        Some((place, sizes[at]))
                    } else {
                        None
                    },
                };
            },
            Some((text, next, closed)) => {
                proof {
                    literal_weight(all, at as int);
                    weight_grows(all, next as int, tokens@.len() as int);
                }
                // The weight of the line bounds the bytes of each of its literals.
                let bytes = match measure(&text) {
                    Some(n) => n,
                    None => 0,
                };
                let ghost before = texts@;
                let literal = string_of(&text);
                texts.push(literal);
                assert(string_views(texts@) =~= string_views(before).push(text@));
                place = place + bytes + 3;
                at = next;
                if !closed {
                    return Gathered {
                        texts,
                        next: at,
                        offset: place,
                        unclosed: true,
                        failed: None,
                    };
                }
            },
        }
    }
    Gathered { texts, next: at, offset: place, unclosed: false, failed: None }
}

/// What the tokens of a line are measured with: the bytes of each, and a
/// weight that can be counted.
pub open spec fn measured(tokens: Seq<Seq<char>>, sizes: Seq<usize>) -> bool {
    &&& sizes.len() == tokens.len()
    &&& forall|k: int| 0 <= k < sizes.len() ==> #[trigger] sizes[k] == byte_len(tokens[k])
    &&& weight(tokens, tokens.len() as int) <= usize::MAX
}

} // verus!
