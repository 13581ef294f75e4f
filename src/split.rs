//! Splitting a token sequence into comma-separated items.
//!
//! A comma separates items only outside every group. Before the first `=` or `=>` of an item
//! (where types stand) a comma between `<` and `>` does not separate either. After it (where
//! values stand) a comma does not separate within the generic arguments of a turbofish
//! `::<..>` or of a qualified path `<T as Trait>` that starts the value, nor within the
//! parameters `|..|` and the return type `-> T` of a closure that starts the value.
use crate::marker::is_punct;
use crate::token::{view_of, Delimiter, Spacing, Token, TokenView};
use vstd::prelude::*;

verus! {

/// Where the scan of an item stands.
pub struct Scan {
    /// The value of the item has started.
    pub in_value: bool,
    /// Open `<` of the types.
    pub depth: nat,
    /// Open `<` of turbofish arguments in the value.
    pub generics: nat,
    /// Within the parameters of a closure.
    pub params: bool,
    /// The value has started and nothing but `move` stands in it yet.
    pub fresh: bool,
    /// The parameters of a closure have just closed.
    pub closed: bool,
    /// Within the return type of a closure, before its body.
    pub ret: bool,
}

/// Where the split of a sequence stands: the items done, and the one being read.
pub struct SplitState {
    pub items: Seq<Seq<TokenView>>,
    pub current: Seq<TokenView>,
}

/// The token at `i` is a punctuation that glues to the next.
pub open spec fn is_joint(s: Seq<TokenView>, i: int) -> bool {
    0 <= i < s.len() && s[i] is Punct && s[i]->Punct_1 == Spacing::Joint
}

/// The token at `i` is a `=` of its own, not part of `==`, `=>`, `<=`, `+=` and the like.
pub open spec fn is_lone_eq(s: Seq<TokenView>, i: int) -> bool {
    is_punct(s[i], '=') && s[i]->Punct_1 == Spacing::Alone && !is_joint(s, i - 1)
}

/// The token at `i` is the `>` of `->` or `=>`.
pub open spec fn is_arrow_head(s: Seq<TokenView>, i: int) -> bool {
    is_punct(s[i], '>') && is_joint(s, i - 1) && (s[i - 1]->Punct_0 == '-' || s[i - 1]->Punct_0
        == '=')
}

/// The token at `i` is the `>` of `=>`.
pub open spec fn is_fat_arrow_head(s: Seq<TokenView>, i: int) -> bool {
    is_arrow_head(s, i) && s[i - 1]->Punct_0 == '='
}

/// The token at `i` is the `<` of `::<`.
pub open spec fn is_turbofish(s: Seq<TokenView>, i: int) -> bool {
    is_punct(s[i], '<') && i >= 2 && s[i - 2] == TokenView::Punct(':', Spacing::Joint) && is_punct(
        s[i - 1],
        ':',
    )
}

pub open spec fn scan_start() -> Scan {
    Scan { in_value: false, depth: 0, generics: 0, params: false, fresh: false, closed: false, ret: false }
}

/// The comma at `i` separates items, given the scan before it.
pub open spec fn separates(s: Seq<TokenView>, i: int, st: Scan) -> bool {
    is_punct(s[i], ',') && st.depth == 0 && st.generics == 0 && !st.params
}

/// The scan after the token at `i`.
pub open spec fn scan_step(s: Seq<TokenView>, i: int, st: Scan) -> Scan {
    let t = s[i];
    if separates(s, i, st) {
        scan_start()
    } else if st.in_value {
        if st.params {
            if is_punct(t, '|') {
                Scan { params: false, closed: true, ..st }
            } else {
                st
            }
        } else if st.fresh && is_punct(t, '|') {
            Scan { params: true, fresh: false, ..st }
        } else if st.fresh && t == TokenView::Ident("move"@) {
            st
        } else if st.closed && t == TokenView::Punct('-', Spacing::Joint) {
            st
        } else if st.closed && is_arrow_head(s, i) {
            Scan { closed: false, ret: true, ..st }
        } else if is_punct(t, '<') && (st.generics > 0 || st.fresh || st.ret || is_turbofish(s, i)) {
            Scan { generics: st.generics + 1, fresh: false, closed: false, ..st }
        } else if is_punct(t, '>') && !is_arrow_head(s, i) && st.generics > 0 {
            Scan { generics: (st.generics - 1) as nat, fresh: false, closed: false, ..st }
        } else if st.ret && st.generics == 0 && t is Group && t->Group_0 == Delimiter::Brace {
            Scan { ret: false, fresh: false, closed: false, ..st }
        } else {
            Scan { fresh: false, closed: false, ..st }
        }
    } else if st.depth == 0 && (is_lone_eq(s, i) || is_fat_arrow_head(s, i)) {
        Scan { in_value: true, fresh: true, ..st }
    } else if is_punct(t, '<') {
        Scan { depth: st.depth + 1, ..st }
    } else if is_punct(t, '>') && !is_arrow_head(s, i) && st.depth > 0 {
        Scan { depth: (st.depth - 1) as nat, ..st }
    } else {
        st
    }
}

/// The scan after the first `n` tokens.
pub open spec fn scan_after(s: Seq<TokenView>, n: int) -> Scan
    decreases n,
{
    if n <= 0 {
        scan_start()
    } else {
        scan_step(s, n - 1, scan_after(s, n - 1))
    }
}

pub open spec fn split_state(s: Seq<TokenView>, n: int) -> SplitState
    decreases n,
{
    if n <= 0 {
        SplitState { items: seq![], current: seq![] }
    } else {
        let st = split_state(s, n - 1);
        if separates(s, n - 1, scan_after(s, n - 1)) {
            SplitState { items: st.items.push(st.current), current: seq![] }
        } else {
            SplitState { items: st.items, current: st.current.push(s[n - 1]) }
        }
    }
}

/// The comma-separated items of `s`; a comma at the very end is allowed.
pub open spec fn split_items(s: Seq<TokenView>) -> Seq<Seq<TokenView>> {
    let st = split_state(s, s.len() as int);
    if st.current.len() == 0 {
        st.items
    } else {
        st.items.push(st.current)
    }
}

pub open spec fn items_view(v: Seq<Vec<Token>>) -> Seq<Seq<TokenView>> {
    Seq::new(v.len(), |i: int| view_of(v[i]@))
}

pub(crate) fn punct_at(v: &Vec<Token>, i: usize) -> (r: Option<(char, Spacing)>)
    ensures
        match r {
            Some((c, sp)) => i < v@.len() && view_of(v@)[i as int] == TokenView::Punct(c, sp),
            None => !(i < v@.len() && view_of(v@)[i as int] is Punct),
        },
{
    if i < v.len() {
        match &v[i] {
            Token::Punct(c, sp) => Some((*c, *sp)),
            _ => None,
        }
    } else {
        None
    }
}

fn joint_at(v: &Vec<Token>, i: usize) -> (r: Option<char>)
    ensures
        match r {
            Some(c) => is_joint(view_of(v@), i as int) && view_of(v@)[i as int]->Punct_0 == c,
            None => !is_joint(view_of(v@), i as int),
        },
{
    match punct_at(v, i) {
        Some((c, Spacing::Joint)) => Some(c),
        _ => None,
    }
}

/// The exec state of a scan.
pub struct ScanState {
    pub in_value: bool,
    pub depth: usize,
    pub generics: usize,
    pub params: bool,
    pub fresh: bool,
    pub closed: bool,
    pub ret: bool,
}

impl ScanState {
    pub open spec fn view(self) -> Scan {
        Scan {
            in_value: self.in_value,
            depth: self.depth as nat,
            generics: self.generics as nat,
            params: self.params,
            fresh: self.fresh,
            closed: self.closed,
            ret: self.ret,
        }
    }

    pub fn start() -> (r: ScanState)
        ensures
            r@ == scan_start(),
            r.depth == 0 && r.generics == 0,
    {
        ScanState { in_value: false, depth: 0, generics: 0, params: false, fresh: false, closed: false, ret: false }
    }
}

/// The punctuation `p` is the character `c`.
fn char_is(p: Option<(char, Spacing)>, c: char) -> (r: bool)
    ensures
        r == (p matches Some((d, _)) && d == c),
{
    match p {
        Some((d, _)) => d == c,
        None => false,
    }
}

/// Whether the comma at `i` separates items, and the scan after the token at `i`.
pub fn step(input: &Vec<Token>, i: usize, st: ScanState) -> (r: (bool, ScanState))
    requires
        i < input@.len(),
        st.depth <= i,
        st.generics <= i,
    ensures
        r.0 == separates(view_of(input@), i as int, st@),
        r.1@ == scan_step(view_of(input@), i as int, st@),
        r.1.depth <= i + 1,
        r.1.generics <= i + 1,
{
    let n = input.len();
    assert(i < n);
    let p = punct_at(input, i);
    let prev = if i > 0 { joint_at(input, i - 1) } else { None };
    let sep = char_is(p, ',') && st.depth == 0 && st.generics == 0 && !st.params;
    if sep {
        return (true, ScanState::start());
    }
    let arrow_head = match (p, prev) {
        (Some((c, _)), Some(q)) => c == '>' && (q == '-' || q == '='),
        _ => false,
    };
    let mut st = st;
    if st.in_value {
        let is_move = match &input[i] {
            Token::Ident(w) => crate::names::is_word(w, "move"),
            _ => false,
        };
        let is_minus = match p {
            Some((c, sp)) => c == '-' && sp == Spacing::Joint,
            None => false,
        };
        let is_brace = match &input[i] {
            Token::Group(d, c) => {
                proof {
                    crate::token::lemma_group_view(*d, *c);
                }
                *d == Delimiter::Brace
            },
            _ => false,
        };
        if st.params {
            if char_is(p, '|') {
                st.params = false;
                st.closed = true;
            }
        } else if st.fresh && char_is(p, '|') {
            st.params = true;
            st.fresh = false;
        } else if st.fresh && is_move {
        } else if st.closed && is_minus {
        } else if st.closed && arrow_head {
            st.closed = false;
            st.ret = true;
        } else {
            let turbofish = char_is(p, '<') && i >= 2 && match (punct_at(input, i - 2), punct_at(input, i - 1)) {
                (Some((a, Spacing::Joint)), Some((b, _))) => a == ':' && b == ':',
                _ => false,
            };
            if char_is(p, '<') && (st.generics > 0 || st.fresh || st.ret || turbofish) {
                st.generics = st.generics + 1;
            } else if char_is(p, '>') && !arrow_head && st.generics > 0 {
                st.generics = st.generics - 1;
            } else if st.ret && st.generics == 0 && is_brace {
                st.ret = false;
            }
            st.fresh = false;
            st.closed = false;
        }
    } else {
        let lone_eq = match p {
            Some((c, sp)) => c == '=' && sp == Spacing::Alone && prev.is_none(),
            None => false,
        };
        let fat_arrow_head = match (p, prev) {
            (Some((c, _)), Some(q)) => c == '>' && q == '=',
            _ => false,
        };
        if st.depth == 0 && (lone_eq || fat_arrow_head) {
            st.in_value = true;
            st.fresh = true;
        } else if char_is(p, '<') {
            st.depth = st.depth + 1;
        } else if char_is(p, '>') && !arrow_head && st.depth > 0 {
            st.depth = st.depth - 1;
        }
    }
    (false, st)
}

/// Splits `input` into its comma-separated items.
pub fn split_items_of(input: &Vec<Token>) -> (r: Vec<Vec<Token>>)
    ensures
        items_view(r@) == split_items(view_of(input@)),
{
    let ghost s = view_of(input@);
    let mut items: Vec<Vec<Token>> = Vec::new();
    let mut current: Vec<Token> = Vec::new();
    let mut st = ScanState::start();
    let mut i: usize = 0;
    proof {
        assert(items_view(items@) =~= Seq::<Seq<TokenView>>::empty());
        assert(view_of(current@) =~= Seq::<TokenView>::empty());
    }
    while i < input.len()
        invariant
            i <= input@.len(),
            s == view_of(input@),
            st.depth <= i,
            st.generics <= i,
            st@ == scan_after(s, i as int),
            split_state(s, i as int) == (SplitState { items: items_view(items@), current: view_of(current@) }),
        decreases input@.len() - i,
    {
        let ghost sp = split_state(s, i as int);
        let (sep, next) = step(input, i, st);
        st = next;
        if sep {
            let done = current;
            items.push(done);
            current = Vec::new();
            proof {
                assert(items_view(items@) =~= sp.items.push(sp.current));
                assert(view_of(current@) =~= Seq::<TokenView>::empty());
            }
        } else {
            current.push(input[i].deep_clone());
            proof {
                assert(view_of(current@) =~= sp.current.push(s[i as int]));
            }
        }
        i = i + 1;
    }
    if current.len() > 0 {
        items.push(current);
    }
    proof {
        assert(items_view(items@) =~= split_items(s));
    }
    items
}

/// The first index from `from` on whose token starts the value of the item: where the scan
/// turns from types to values, at a `=` or `=>` outside every `<`..`>`.
pub open spec fn first_value_start(s: Seq<TokenView>, from: int) -> Option<int>
    decreases s.len() - from,
{
    if from < 0 || from >= s.len() {
        None
    } else if !scan_after(s, from).in_value && scan_after(s, from + 1).in_value {
        Some(from)
    } else {
        first_value_start(s, from + 1)
    }
}

pub proof fn lemma_first_value_start_bounds(s: Seq<TokenView>, from: int)
    ensures
        first_value_start(s, from) matches Some(i) ==> from <= i < s.len(),
    decreases s.len() - from,
{
    if 0 <= from < s.len() && !(!scan_after(s, from).in_value && scan_after(s, from + 1).in_value) {
        lemma_first_value_start_bounds(s, from + 1);
    }
}

/// Finds where the value of an item starts.
pub fn find_value_start(input: &Vec<Token>) -> (r: Option<usize>)
    ensures
        match r {
            Some(i) => first_value_start(view_of(input@), 0) == Some(i as int),
            None => first_value_start(view_of(input@), 0) is None,
        },
{
    let ghost s = view_of(input@);
    let mut st = ScanState::start();
    let mut i: usize = 0;
    while i < input.len()
        invariant
            i <= input@.len(),
            s == view_of(input@),
            st.depth <= i,
            st.generics <= i,
            st@ == scan_after(s, i as int),
            first_value_start(s, 0) == first_value_start(s, i as int),
        decreases input@.len() - i,
    {
        let was_value = st.in_value;
        let (_, next) = step(input, i, st);
        st = next;
        if !was_value && st.in_value {
            return Some(i);
        }
        i = i + 1;
    }
    None
}

} // verus!
