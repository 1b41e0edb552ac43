use vstd::prelude::*;

verus! {

/// The seven inputs a command can read.
#[derive(Copy, Clone, Debug, PartialEq, Eq, Structural)]
pub enum VarType {
    Frame,
    MouseX,
    MouseY,
    ScreenX,
    ScreenY,
    KeyboardX,
    KeyboardY,
}

/// Binary operators on integers.
#[derive(Copy, Clone, Debug, PartialEq, Eq, Structural)]
pub enum BiType {
    Add,
    Sub,
    Mul,
    Div,
    Mod,
    Shl,
    Shr,
    And,
    Orr,
    Xor,
}

/// Unary trigonometric operators.
#[derive(Copy, Clone, Debug, PartialEq, Eq, Structural)]
pub enum TrigType {
    Sin,
    Cos,
    Tan,
}

/// Binary operators on real numbers.
#[derive(Copy, Clone, Debug, PartialEq, Eq, Structural)]
pub enum BiFloatType {
    Pow,
    AddF,
    SubF,
    MulF,
    DivF,
    ModF,
}

/// Comparison operators.
#[derive(Copy, Clone, Debug, PartialEq, Eq, Structural)]
pub enum CompType {
    Lt,
    Gt,
    Leq,
    Geq,
    Eq,
    Neq,
}

/// A literal. A real number is held as the 64 bits of its IEEE-754 binary64
/// encoding, so that every value in this library is an integer.
#[derive(Copy, Clone, Debug, PartialEq, Eq, Structural)]
pub enum LiteralType {
    NumF(u64),
    NumI(i64),
    Hex(i64),
}

/// One command of the expression language.
#[derive(Clone, Debug, PartialEq, Eq)]
pub enum Cmd {
    Var(VarType),
    Literal(LiteralType),
    Bi(BiType),
    Trig(TrigType),
    BiFloat(BiFloatType),
    Comp(CompType),
    Cond,
    Arr(usize),
    Meta(String, String),
    Comment(String),
}

/// What a command is, with its texts as sequences of characters.
pub enum CmdView {
    Var(VarType),
    Literal(LiteralType),
    Bi(BiType),
    Trig(TrigType),
    BiFloat(BiFloatType),
    Comp(CompType),
    Cond,
    Arr(usize),
    Meta(Seq<char>, Seq<char>),
    Comment(Seq<char>),
}

impl View for Cmd {
    type V = CmdView;

    open spec fn view(&self) -> CmdView {
        match *self {
            Cmd::Var(v) => CmdView::Var(v),
            Cmd::Literal(l) => CmdView::Literal(l),
            Cmd::Bi(b) => CmdView::Bi(b),
            Cmd::Trig(t) => CmdView::Trig(t),
            Cmd::BiFloat(b) => CmdView::BiFloat(b),
            Cmd::Comp(c) => CmdView::Comp(c),
            Cmd::Cond => CmdView::Cond,
            Cmd::Arr(n) => CmdView::Arr(n),
            Cmd::Meta(k, v) => CmdView::Meta(k@, v@),
            Cmd::Comment(t) => CmdView::Comment(t@),
        }
    }
}

impl Cmd {
    /// A command with no effect at run time: an annotation or a comment.
    pub open spec fn is_annotation(&self) -> bool {
        self is Meta || self is Comment
    }

    /// The net change of the stack's depth that the command causes.
    pub open spec fn effect(&self) -> int {
        match *self {
            Cmd::Var(_) | Cmd::Literal(_) => 1,
            Cmd::Meta(_, _) | Cmd::Comment(_) => 0,
            Cmd::Trig(_) => 0,
            Cmd::Arr(n) => -(n as int),
            Cmd::Cond => -2,
            Cmd::Bi(_) | Cmd::BiFloat(_) | Cmd::Comp(_) => -1,
        }
    }

    /// The number of values that the command takes from the stack.
    pub open spec fn needs(&self) -> int {
        match *self {
            Cmd::Var(_) | Cmd::Literal(_) | Cmd::Meta(_, _) | Cmd::Comment(_) => 0,
            Cmd::Trig(_) => 1,
            Cmd::Bi(_) | Cmd::BiFloat(_) | Cmd::Comp(_) => 2,
            Cmd::Cond => 3,
            Cmd::Arr(n) => if n == 0 { 0 } else { n + 1 },
        }
    }

    /// Represents the amount that the stack will change due to this command.
    /// A positive value means the stack grows, a negative value means it
    /// shrinks. The stack can change size during the execution of a command:
    /// a trigonometric operator pops one value and pushes one. An array whose
    /// size has no place in the result counts as the largest that has.
    pub fn stack_change(&self) -> (change: isize)
        ensures
            change == if self.effect() < -isize::MAX { -isize::MAX } else { self.effect() },
    {
        match self {
            Cmd::Var(_) | Cmd::Literal(_) => 1,
            Cmd::Meta(_, _) | Cmd::Comment(_) => 0,
            Cmd::Trig(_) => 0,
            Cmd::Arr(n) => {
                if *n > isize::MAX as usize {
                    -isize::MAX
                } else {
                    -(*n as isize)
                }
            },
            Cmd::Cond => -2,
            Cmd::Bi(_) | Cmd::BiFloat(_) | Cmd::Comp(_) => -1,
        }
    }

    /// A copy of the command.
    pub fn duplicate(&self) -> (copy: Cmd)
        ensures
            copy@ == self@,
    {
        match self {
            Cmd::Var(v) => Cmd::Var(*v),
            Cmd::Literal(l) => Cmd::Literal(*l),
            Cmd::Bi(b) => Cmd::Bi(*b),
            Cmd::Trig(t) => Cmd::Trig(*t),
            Cmd::BiFloat(b) => Cmd::BiFloat(*b),
            Cmd::Comp(c) => Cmd::Comp(*c),
            Cmd::Cond => Cmd::Cond,
            Cmd::Arr(n) => Cmd::Arr(*n),
            Cmd::Meta(k, v) => Cmd::Meta(k.clone(), v.clone()),
            Cmd::Comment(t) => Cmd::Comment(t.clone()),
        }
    }
}

} // verus!
