use vstd::prelude::*;

verus! {

/// Prefix operators of an expression node.
#[derive(Clone, Copy, Debug, PartialEq, Eq, Structural)]
pub enum UnOp {
    Pos,
    Neg,
}

/// Infix operators of an expression node.
#[derive(Clone, Copy, Debug, PartialEq, Eq, Structural)]
pub enum BinOp {
    Add,
    Sub,
    Mul,
    Div,
}

impl BinOp {
    /// Whether `self` binds tighter than `other`.
    pub fn binds_tighter(&self, other: &BinOp) -> (r: bool)
        ensures
            r == ((*self is Mul || *self is Div) && (*other is Add || *other is Sub)),
    {
        match (self, other) {
            (BinOp::Mul, BinOp::Add) | (BinOp::Mul, BinOp::Sub) | (BinOp::Div, BinOp::Add) | (BinOp::Div, BinOp::Sub) => true,
            _ => false,
        }
    }

    /// The operator written as `c`, if any.
    pub fn from_char(c: char) -> (r: Option<BinOp>)
        ensures
            r == (if c == '+' {
                Some(BinOp::Add)
            } else if c == '-' {
                Some(BinOp::Sub)
            } else if c == '*' {
                Some(BinOp::Mul)
            } else if c == '/' {
                Some(BinOp::Div)
            } else {
                None::<BinOp>
            }),
    {
        if c == '+' {
            Some(BinOp::Add)
        } else if c == '-' {
            Some(BinOp::Sub)
        } else if c == '*' {
            Some(BinOp::Mul)
        } else if c == '/' {
            Some(BinOp::Div)
        } else {
            None
        }
    }
}

impl UnOp {
    /// The prefix operator written as `c`, if any.
    pub fn from_char(c: char) -> (r: Option<UnOp>)
        ensures
            r == (if c == '+' {
                Some(UnOp::Pos)
            } else if c == '-' {
                Some(UnOp::Neg)
            } else {
                None::<UnOp>
            }),
    {
        if c == '+' {
            Some(UnOp::Pos)
        } else if c == '-' {
            Some(UnOp::Neg)
        } else {
            None
        }
    }
}

} // verus!
