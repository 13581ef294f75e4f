//! The token-tree model that every rewrite works on.
use vstd::prelude::*;

verus! {

broadcast use vstd::std_specs::vec::group_vec_axioms;

/// The delimiter of a group.
#[derive(Clone, Copy, Debug, PartialEq, Eq, Structural)]
pub enum Delimiter {
    Parenthesis,
    Brace,
    Bracket,
    Invisible,
}

/// Whether a punctuation character is glued to the one that follows it.
#[derive(Clone, Copy, Debug, PartialEq, Eq, Structural)]
pub enum Spacing {
    Alone,
    Joint,
}

/// One node of a token tree: a leaf, or a delimited group of nodes.
#[derive(Debug, PartialEq, Eq)]
pub enum Token {
    Ident(String),
    Punct(char, Spacing),
    Literal(String),
    Group(Delimiter, Vec<Token>),
}

/// The mathematical value of a token tree.
pub enum TokenView {
    Ident(Seq<char>),
    Punct(char, Spacing),
    Literal(Seq<char>),
    Group(Delimiter, Seq<TokenView>),
}

impl Token {
    pub open spec fn view(self) -> TokenView
        decreases self,
    {
        match self {
            Token::Ident(s) => TokenView::Ident(s@),
            Token::Punct(c, sp) => TokenView::Punct(c, sp),
            Token::Literal(s) => TokenView::Literal(s@),
            Token::Group(d, v) => TokenView::Group(
                d,
                Seq::new(
                    v@.len(),
                    |i: int|
                        if 0 <= i < v@.len() {
                            v@[i].view()
                        } else {
                            TokenView::Punct(' ', Spacing::Alone)
                        },
                ),
            ),
        }
    }
}

/// The value of a sequence of tokens.
pub open spec fn view_of(s: Seq<Token>) -> Seq<TokenView> {
    Seq::new(s.len(), |i: int| s[i]@)
}

/// The value of a group is its delimiter with the values of its children.
pub proof fn lemma_group_view(d: Delimiter, v: Vec<Token>)
    ensures
        Token::Group(d, v)@ == TokenView::Group(d, view_of(v@)),
{
    assert(Token::Group(d, v)@->Group_1 =~= view_of(v@));
}

impl Token {
    /// A copy of the whole tree.
    pub fn deep_clone(&self) -> (r: Token)
        ensures
            r@ == self@,
        decreases self,
    {
        match self {
            Token::Ident(s) => Token::Ident(s.clone()),
            Token::Punct(c, sp) => Token::Punct(*c, *sp),
            Token::Literal(s) => Token::Literal(s.clone()),
            Token::Group(d, v) => {
                let mut out: Vec<Token> = Vec::new();
                let mut i: usize = 0;
                while i < v.len()
                    invariant
                        *self == Token::Group(*d, *v),
                        i <= v@.len(),
                        out@.len() == i,
                        forall|j: int| 0 <= j < i ==> (#[trigger] out@[j])@ == v@[j]@,
                    decreases v@.len() - i,
                {
                    proof {
                        let t = *self;
                        assert(decreases_to!(t => t->Group_1));
                        assert(decreases_to!(t => v@[i as int]));
                    }
                    let c = v[i].deep_clone();
                    out.push(c);
                    i += 1;
                }
                assert(view_of(out@) =~= view_of(v@));
                proof {
                    lemma_group_view(*d, *v);
                    lemma_group_view(*d, out);
                }
                Token::Group(*d, out)
            },
        }
    }
}

/// A copy of a sequence of trees.
pub fn clone_tokens(v: &Vec<Token>) -> (r: Vec<Token>)
    ensures
        view_of(r@) == view_of(v@),
{
    let mut out: Vec<Token> = Vec::new();
    let mut i: usize = 0;
    while i < v.len()
        invariant
            i <= v@.len(),
            out@.len() == i,
            forall|j: int| 0 <= j < i ==> (#[trigger] out@[j])@ == v@[j]@,
        decreases v@.len() - i,
    {
        let c = v[i].deep_clone();
        out.push(c);
        i += 1;
    }
    assert(view_of(out@) =~= view_of(v@));
    out
}

/// A copy of `v` that holds `t` at `i`.
pub fn replace_at(v: &Vec<Token>, i: usize, t: Token) -> (r: Vec<Token>)
    requires
        i < v@.len(),
    ensures
        view_of(r@) == view_of(v@).update(i as int, t@),
{
    let ghost target = view_of(v@).update(i as int, t@);
    let n = v.len();
    let mut out: Vec<Token> = Vec::new();
    let mut j: usize = 0;
    while j < i
        invariant
            j <= i < n,
            n == v@.len(),
            target == view_of(v@).update(i as int, t@),
            out@.len() == j,
            forall|k: int| 0 <= k < j ==> (#[trigger] out@[k])@ == target[k],
        decreases i - j,
    {
        out.push(v[j].deep_clone());
        j += 1;
    }
    out.push(t);
    j += 1;
    while j < v.len()
        invariant
            i < j <= v@.len(),
            target == view_of(v@).update(i as int, t@),
            out@.len() == j,
            forall|k: int| 0 <= k < j ==> (#[trigger] out@[k])@ == target[k],
        decreases v@.len() - j,
    {
        out.push(v[j].deep_clone());
        j += 1;
    }
    assert(view_of(out@) =~= target);
    out
}

/// A sequence of one token.
pub fn single(t: Token) -> (r: Vec<Token>)
    ensures
        view_of(r@) == seq![t@],
{
    let mut v: Vec<Token> = Vec::new();
    v.push(t);
    assert(view_of(v@) =~= seq![t@]);
    v
}

/// `a` followed by `b`.
pub fn concat_tokens(a: Vec<Token>, b: Vec<Token>) -> (r: Vec<Token>)
    ensures
        view_of(r@) == view_of(a@) + view_of(b@),
{
    let mut a = a;
    let mut b = b;
    let ghost a0 = a@;
    let ghost b0 = b@;
    a.append(&mut b);
    assert(view_of(a@) =~= view_of(a0) + view_of(b0));
    a
}

/// A punctuation token that stands alone.
pub fn punct(c: char) -> (r: Token)
    ensures
        r@ == TokenView::Punct(c, Spacing::Alone),
{
    Token::Punct(c, Spacing::Alone)
}

/// A punctuation token glued to the next.
pub fn joint(c: char) -> (r: Token)
    ensures
        r@ == TokenView::Punct(c, Spacing::Joint),
{
    Token::Punct(c, Spacing::Joint)
}

/// An identifier.
pub fn ident(s: &str) -> (r: Token)
    ensures
        r@ == TokenView::Ident(s@),
{
    Token::Ident(String::from_str(s))
}

/// An empty group.
pub fn empty_group(d: Delimiter) -> (r: Token)
    ensures
        r@ == TokenView::Group(d, seq![]),
{
    let v: Vec<Token> = Vec::new();
    assert(view_of(v@) =~= Seq::<TokenView>::empty());
    group(d, v)
}

/// A group.
pub fn group(d: Delimiter, v: Vec<Token>) -> (r: Token)
    ensures
        r@ == TokenView::Group(d, view_of(v@)),
{
    proof {
        lemma_group_view(d, v);
    }
    Token::Group(d, v)
}

} // verus!
