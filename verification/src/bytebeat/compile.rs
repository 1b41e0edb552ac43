use vstd::prelude::*;
use crate::bytebeat::cmd::{
    BiFloatType, BiType, Cmd, CompType, LiteralType, TrigType, VarType,
};
use crate::bytebeat::format::{format_cmd, word_of};
use crate::bytebeat::numeral::{numeral, push_numeral, push_signed, push_word, signed_numeral};
use crate::text::{quote, quoted, str_eq};

verus! {

/// The depth of the stack after the commands of `cmds`, counted from an empty
/// stack by their effects.
pub open spec fn depth(cmds: Seq<Cmd>) -> int
    decreases cmds.len(),
{
    if cmds.len() == 0 {
        0
    } else {
        depth(cmds.drop_last()) + cmds.last().effect()
    }
}

/// The command at `index` finds the operands it needs: it is an annotation,
/// or it leaves the stack with at least one value.
pub open spec fn admits(cmds: Seq<Cmd>, index: int) -> bool {
    cmds[index].is_annotation() || depth(cmds.take(index)) + cmds[index].effect() > 0
}

/// Every command before `bound` finds the operands it needs.
pub open spec fn admits_all(cmds: Seq<Cmd>, bound: int) -> bool {
    forall|i: int| 0 <= i < bound ==> admits(cmds, i)
}

/// What makes a list of commands a program: no command underflows the stack
/// and exactly one value, the result, is left.
pub open spec fn compiles(cmds: Seq<Cmd>) -> bool {
    admits_all(cmds, cmds.len() as int) && depth(cmds) == 1
}

/// The values that the annotations of `cmds` give to `key`, in their order.
pub open spec fn values_of(cmds: Seq<Cmd>, key: Seq<char>) -> Seq<Seq<char>>
    decreases cmds.len(),
{
    if cmds.len() == 0 {
        Seq::empty()
    } else {
        match cmds.last() {
            Cmd::Meta(k, v) => if k@ == key {
                values_of(cmds.drop_last(), key).push(v@)
            } else {
                values_of(cmds.drop_last(), key)
            },
            _ => values_of(cmds.drop_last(), key),
        }
    }
}

/// The keys of the annotations of `cmds`, each once, in the order in which
/// they first appear.
pub open spec fn keys_of(cmds: Seq<Cmd>) -> Seq<Seq<char>>
    decreases cmds.len(),
{
    if cmds.len() == 0 {
        Seq::empty()
    } else {
        match cmds.last() {
            Cmd::Meta(k, _) => if keys_of(cmds.drop_last()).contains(k@) {
                keys_of(cmds.drop_last())
            } else {
                keys_of(cmds.drop_last()).push(k@)
            },
            _ => keys_of(cmds.drop_last()),
        }
    }
}

/// The keys of the entries of `meta`.
pub open spec fn entry_keys(meta: Seq<(String, Vec<String>)>) -> Seq<Seq<char>> {
    Seq::new(meta.len(), |i: int| meta[i].0@)
}

/// `meta` maps the keys of the annotations of `cmds` to their values: it
/// has one entry for each key, in the order in which the keys first appear,
/// and each entry holds all the values that the annotations give to its
/// key, in their order.
pub open spec fn is_mapping(meta: Seq<(String, Vec<String>)>, cmds: Seq<Cmd>) -> bool {
    &&& entry_keys(meta) == keys_of(cmds)
    &&& forall|i: int|
        0 <= i < meta.len() ==> (#[trigger] meta[i]).1@.len() > 0 && texts(meta[i].1@)
            == values_of(cmds, meta[i].0@)
    &&& forall|i: int, j: int|
        0 <= i < j < meta.len() ==> (#[trigger] meta[i]).0@ != (#[trigger] meta[j]).0@
    &&& forall|key: Seq<char>|
        (#[trigger] values_of(cmds, key)).len() > 0 ==> exists|i: int|
            0 <= i < meta.len() && (#[trigger] meta[i]).0@ == key
}

/// The strings of `items` as character sequences.
pub open spec fn texts(items: Seq<String>) -> Seq<Seq<char>> {
    Seq::new(items.len(), |i: int| items[i]@)
}

/// The depth after a prefix never exceeds the prefix's length.
pub proof fn lemma_depth_bound(cmds: Seq<Cmd>)
    ensures
        depth(cmds) <= cmds.len(),
    decreases cmds.len(),
{
    if cmds.len() > 0 {
        lemma_depth_bound(cmds.drop_last());
    }
}

/// While every command finds its operands, the depth is never negative.
pub proof fn lemma_depth_nonnegative(cmds: Seq<Cmd>, bound: int)
    requires
        0 <= bound <= cmds.len(),
        admits_all(cmds, bound),
    ensures
        depth(cmds.take(bound)) >= 0,
    decreases bound,
{
    if bound > 0 {
        lemma_depth_nonnegative(cmds, bound - 1);
        assert(cmds.take(bound).drop_last() == cmds.take(bound - 1));
        assert(admits(cmds, bound - 1));
    }
}

/// The name of a variable as `Debug` writes it.
pub open spec fn var_name(var: VarType) -> Seq<char> {
    match var {
        VarType::Frame => "Frame"@,
        VarType::MouseX => "MouseX"@,
        VarType::MouseY => "MouseY"@,
        VarType::ScreenX => "ScreenX"@,
        VarType::ScreenY => "ScreenY"@,
        VarType::KeyboardX => "KeyboardX"@,
        VarType::KeyboardY => "KeyboardY"@,
    }
}

/// The name of a binary integer operator as `Debug` writes it.
pub open spec fn bi_name(op: BiType) -> Seq<char> {
    match op {
        BiType::Add => "Add"@,
        BiType::Sub => "Sub"@,
        BiType::Mul => "Mul"@,
        BiType::Div => "Div"@,
        BiType::Mod => "Mod"@,
        BiType::Shl => "Shl"@,
        BiType::Shr => "Shr"@,
        BiType::And => "And"@,
        BiType::Orr => "Orr"@,
        BiType::Xor => "Xor"@,
    }
}

/// The name of a trigonometric operator as `Debug` writes it.
pub open spec fn trig_name(op: TrigType) -> Seq<char> {
    match op {
        TrigType::Sin => "Sin"@,
        TrigType::Cos => "Cos"@,
        TrigType::Tan => "Tan"@,
    }
}

/// The name of a binary real operator as `Debug` writes it.
pub open spec fn bifloat_name(op: BiFloatType) -> Seq<char> {
    match op {
        BiFloatType::Pow => "Pow"@,
        BiFloatType::AddF => "AddF"@,
        BiFloatType::SubF => "SubF"@,
        BiFloatType::MulF => "MulF"@,
        BiFloatType::DivF => "DivF"@,
        BiFloatType::ModF => "ModF"@,
    }
}

/// The name of a comparison as `Debug` writes it.
pub open spec fn comp_name(op: CompType) -> Seq<char> {
    match op {
        CompType::Lt => "Lt"@,
        CompType::Gt => "Gt"@,
        CompType::Leq => "Leq"@,
        CompType::Geq => "Geq"@,
        CompType::Eq => "Eq"@,
        CompType::Neq => "Neq"@,
    }
}

/// A command as `Debug` writes it: the name of its kind and, between round
/// brackets, what it holds; a real literal as the number that its bits are.
pub open spec fn debug_item(cmd: Cmd) -> Seq<char> {
    match cmd {
        Cmd::Var(var) => "Var("@ + var_name(var) + ")"@,
        Cmd::Literal(LiteralType::NumF(y)) => "Literal(NumF("@ + numeral(y as nat, false) + "))"@,
        Cmd::Literal(LiteralType::NumI(y)) => "Literal(NumI("@ + signed_numeral(y as int) + "))"@,
        Cmd::Literal(LiteralType::Hex(y)) => "Literal(Hex("@ + signed_numeral(y as int) + "))"@,
        Cmd::Bi(op) => "Bi("@ + bi_name(op) + ")"@,
        Cmd::Trig(op) => "Trig("@ + trig_name(op) + ")"@,
        Cmd::BiFloat(op) => "BiFloat("@ + bifloat_name(op) + ")"@,
        Cmd::Comp(op) => "Comp("@ + comp_name(op) + ")"@,
        Cmd::Cond => "Cond"@,
        Cmd::Arr(size) => "Arr("@ + numeral(size as nat, false) + ")"@,
        Cmd::Meta(k, v) => "Meta("@ + quoted(k@) + ", "@ + quoted(v@) + ")"@,
        Cmd::Comment(text) => "Comment("@ + quoted(text@) + ")"@,
    }
}

/// The texts of the commands in a row, a comma and a space between two.
pub open spec fn debug_items(cmds: Seq<Cmd>) -> Seq<char>
    decreases cmds.len(),
{
    if cmds.len() == 0 {
        Seq::empty()
    } else if cmds.len() == 1 {
        debug_item(cmds[0])
    } else {
        debug_items(cmds.drop_last()) + ", "@ + debug_item(cmds.last())
    }
}

/// The text of the error of a command that does not find its operands,
/// where `word` is the word of that command.
pub open spec fn underflow_text(word: Seq<char>, index: usize, stack_size: isize) -> Seq<char> {
    "Attempt to pop beyond stack size. instruction: "@ + word + " index: "@ + numeral(
        index as nat,
        false,
    ) + ", size of stack "@ + signed_numeral(stack_size as int)
}

/// The text of the error of a program that does not leave one value: its
/// commands are listed.
pub open spec fn empty_text(cmds: Seq<Cmd>) -> Seq<char> {
    "Program is empty: ["@ + debug_items(cmds) + "]"@
}

/// A depth as an error reports it: itself, or the largest number that the
/// report has room for.
pub open spec fn reported(depth: int) -> isize {
    if depth > isize::MAX {
        isize::MAX
    } else {
        depth as isize
    }
}

/// An annotation with the key `k` keeps every key an entry: where the
/// entries of `before` cover the keys of `seen`, and `after` keeps their
/// keys and has an entry for `k`, the entries of `after` cover the keys of
/// `seen` with that annotation behind it.
proof fn lemma_keys_stay(
    before: Seq<(String, Vec<String>)>,
    after: Seq<(String, Vec<String>)>,
    seen: Seq<Cmd>,
    next: Seq<Cmd>,
    k: Seq<char>,
)
    requires
        is_mapping(before, seen),
        next.len() == seen.len() + 1,
        next.drop_last() == seen,
        next.last() is Meta,
        next.last()->Meta_0@ == k,
        before.len() <= after.len(),
        forall|i: int| 0 <= i < before.len() ==> (#[trigger] after[i]).0@ == before[i].0@,
        exists|i: int| 0 <= i < after.len() && (#[trigger] after[i]).0@ == k,
    ensures
        forall|key: Seq<char>|
            (#[trigger] values_of(next, key)).len() > 0 ==> exists|i: int|
                0 <= i < after.len() && (#[trigger] after[i]).0@ == key,
{
    assert forall|key: Seq<char>| (#[trigger] values_of(next, key)).len() > 0 implies exists|
        i: int,
    | 0 <= i < after.len() && (#[trigger] after[i]).0@ == key by {
        if key != k {
            assert(values_of(seen, key).len() > 0);
            let i = choose|i: int| 0 <= i < before.len() && (#[trigger] before[i]).0@ == key;
            assert(after[i].0@ == key);
        }
    }
}

/// The entry of `key` in `meta`, if it has one.
fn entry_of(meta: &Vec<(String, Vec<String>)>, key: &str) -> (at: Option<usize>)
    ensures
        match at {
            Some(at) => at < meta.len() && meta[at as int].0@ == key@,
            None => forall|i: int| 0 <= i < meta.len() ==> (#[trigger] meta[i]).0@ != key@,
        },
{
    let mut i: usize = 0;
    while i < meta.len()
        invariant
            i <= meta.len(),
            forall|k: int| 0 <= k < i ==> (#[trigger] meta[k]).0@ != key@,
        decreases meta.len() - i,
    {
        if str_eq(meta[i].0.as_str(), key) {
            return Some(i);
        }
        i += 1;
    }
    None
}

/// A list of commands which forms a valid program, with the mapping from the
/// keys of its annotations to their values.
#[derive(Debug)]
pub struct Program {
    cmds: Vec<Cmd>,
    meta: Vec<(String, Vec<String>)>,
}

impl Program {
    #[verifier::type_invariant]
    spec fn valid(&self) -> bool {
        compiles(self.cmds@) && is_mapping(self.meta@, self.cmds@)
    }

    /// The commands of the program.
    pub closed spec fn code(&self) -> Seq<Cmd> {
        self.cmds@
    }

    /// The commands of the program.
    pub fn cmds(&self) -> (cmds: &Vec<Cmd>)
        ensures
            cmds@ == self.code(),
            compiles(cmds@),
    {
        proof {
            use_type_invariant(self);
        }
        &self.cmds
    }

    /// The keys of the program's annotations, each once, in the order in
    /// which they first appear.
    pub fn keys(&self) -> (keys: Vec<String>)
        ensures
            texts(keys@) == keys_of(self.code()),
    {
        proof {
            use_type_invariant(self);
        }
        let mut keys: Vec<String> = Vec::new();
        let mut i: usize = 0;
        while i < self.meta.len()
            invariant
                i <= self.meta.len(),
                texts(keys@) == entry_keys(self.meta@).take(i as int),
            decreases self.meta.len() - i,
        {
            let ghost before = texts(keys@);
            let key = self.meta[i].0.clone();
            keys.push(key);
            assert(texts(keys@) =~= before.push(key@));
            i += 1;
            assert(texts(keys@) =~= entry_keys(self.meta@).take(i as int));
        }
        assert(entry_keys(self.meta@).take(i as int) == entry_keys(self.meta@));
        keys
    }

    /// The latest value that the program's annotations give to `name`.
    pub fn meta(&self, name: &str) -> (value: Option<&str>)
        ensures
            match value {
                Some(v) => values_of(self.code(), name@).len() > 0 && v@ == values_of(
                    self.code(),
                    name@,
                ).last(),
                None => values_of(self.code(), name@).len() == 0,
            },
    {
        proof {
            use_type_invariant(self);
        }
        match entry_of(&self.meta, name) {
            Some(at) => {
                let values = &self.meta[at].1;
                Some(values[values.len() - 1].as_str())
            },
            None => None,
        }
    }

    /// All the values that the program's annotations give to `name`, in the
    /// order of the annotations.
    pub fn all_meta(&self, name: &str) -> (values: Vec<String>)
        ensures
            texts(values@) == values_of(self.code(), name@),
    {
        proof {
            use_type_invariant(self);
        }
        let mut values: Vec<String> = Vec::new();
        match entry_of(&self.meta, name) {
            Some(at) => {
                let found = &self.meta[at].1;
                let mut i: usize = 0;
                while i < found.len()
                    invariant
                        i <= found.len(),
                        texts(values@) == texts(found@).take(i as int),
                    decreases found.len() - i,
                {
                    let ghost before = texts(values@);
                    let value = found[i].clone();
                    values.push(value);
                    assert(texts(values@) =~= before.push(value@));
                    i += 1;
                }
            },
            None => {
            },
        }
        values
    }
}

/// Describe an error for a malformed program.
#[derive(Debug, PartialEq, Eq)]
pub enum ErrorKind {
    /// The command at `index` does not find its operands on a stack of
    /// `stack_size` values.
    UnderflowedStack { index: usize, stack_size: isize },
    /// Every command finds its operands, but the program does not leave one
    /// value: it leaves none, as a program of comments does, or more than
    /// one.
    EmptyProgram,
}

/// A program which fails to compile.
#[derive(Debug, PartialEq, Eq)]
pub struct CompileError {
    /// The program in question
    cmds: Vec<Cmd>,
    /// The error associated with the program.
    error_kind: ErrorKind,
}

/// Appends a command as `Debug` writes it: `debug_item`.
fn push_debug(out: &mut String, cmd: &Cmd)
    ensures
        final(out)@ == old(out)@ + debug_item(*cmd),
{
    match cmd {
        Cmd::Var(var) => {
            push_word(out, "Var(");
            match var {
                VarType::Frame => push_word(out, "Frame"),
                VarType::MouseX => push_word(out, "MouseX"),
                VarType::MouseY => push_word(out, "MouseY"),
                VarType::ScreenX => push_word(out, "ScreenX"),
                VarType::ScreenY => push_word(out, "ScreenY"),
                VarType::KeyboardX => push_word(out, "KeyboardX"),
                VarType::KeyboardY => push_word(out, "KeyboardY"),
            }
            push_word(out, ")");
        },
        Cmd::Literal(LiteralType::NumF(y)) => {
            push_word(out, "Literal(NumF(");
            push_numeral(out, *y, false);
            push_word(out, "))");
        },
        Cmd::Literal(LiteralType::NumI(y)) => {
            push_word(out, "Literal(NumI(");
            push_signed(out, *y);
            push_word(out, "))");
        },
        Cmd::Literal(LiteralType::Hex(y)) => {
            push_word(out, "Literal(Hex(");
            push_signed(out, *y);
            push_word(out, "))");
        },
        Cmd::Bi(op) => {
            push_word(out, "Bi(");
            match op {
                BiType::Add => push_word(out, "Add"),
                BiType::Sub => push_word(out, "Sub"),
                BiType::Mul => push_word(out, "Mul"),
                BiType::Div => push_word(out, "Div"),
                BiType::Mod => push_word(out, "Mod"),
                BiType::Shl => push_word(out, "Shl"),
                BiType::Shr => push_word(out, "Shr"),
                BiType::And => push_word(out, "And"),
                BiType::Orr => push_word(out, "Orr"),
                BiType::Xor => push_word(out, "Xor"),
            }
            push_word(out, ")");
        },
        Cmd::Trig(op) => {
            push_word(out, "Trig(");
            match op {
                TrigType::Sin => push_word(out, "Sin"),
                TrigType::Cos => push_word(out, "Cos"),
                TrigType::Tan => push_word(out, "Tan"),
            }
            push_word(out, ")");
        },
        Cmd::BiFloat(op) => {
            push_word(out, "BiFloat(");
            match op {
                BiFloatType::Pow => push_word(out, "Pow"),
                BiFloatType::AddF => push_word(out, "AddF"),
                BiFloatType::SubF => push_word(out, "SubF"),
                BiFloatType::MulF => push_word(out, "MulF"),
                BiFloatType::DivF => push_word(out, "DivF"),
                BiFloatType::ModF => push_word(out, "ModF"),
            }
            push_word(out, ")");
        },
        Cmd::Comp(op) => {
            push_word(out, "Comp(");
            match op {
                CompType::Lt => push_word(out, "Lt"),
                CompType::Gt => push_word(out, "Gt"),
                CompType::Leq => push_word(out, "Leq"),
                CompType::Geq => push_word(out, "Geq"),
                CompType::Eq => push_word(out, "Eq"),
                CompType::Neq => push_word(out, "Neq"),
            }
            push_word(out, ")");
        },
        Cmd::Cond => {
            push_word(out, "Cond");
        },
        Cmd::Arr(size) => {
            push_word(out, "Arr(");
            push_numeral(out, *size as u64, false);
            push_word(out, ")");
        },
        Cmd::Meta(k, v) => {
            push_word(out, "Meta(");
            let key = quote(k.as_str());
            push_word(out, key.as_str());
            push_word(out, ", ");
            let value = quote(v.as_str());
            push_word(out, value.as_str());
            push_word(out, ")");
        },
        Cmd::Comment(text) => {
            push_word(out, "Comment(");
            let text = quote(text.as_str());
            push_word(out, text.as_str());
            push_word(out, ")");
        },
    }
    assert(out@ =~= old(out)@ + debug_item(*cmd));
}

impl CompileError {
    #[verifier::type_invariant]
    spec fn valid(&self) -> bool {
        match self.error_kind {
            ErrorKind::UnderflowedStack { index, stack_size } => index < self.cmds@.len(),
            ErrorKind::EmptyProgram => true,
        }
    }

    /// The error as a text for a reader: for a command that does not find
    /// its operands `underflow_text`, with the command's word, its place and
    /// the depth before it; for a program that does not leave one value
    /// `empty_text`.
    ///
    /// `show_real` gives the text of a real literal, as in `format_beat`.
    pub fn message<W: Fn(u64) -> String>(&self, show_real: &W) -> (message: String)
        requires
            forall|bits: u64| call_requires(*show_real, (bits,)),
        ensures
            match self.kind() {
                ErrorKind::UnderflowedStack { index, stack_size } => index < self.code().len()
                    && exists|shown: Seq<char>|
                    message@ == underflow_text(
                        #[trigger] word_of(self.code()[index as int]@, shown),
                        index,
                        stack_size,
                    ),
                ErrorKind::EmptyProgram => message@ == empty_text(self.code()),
            },
    {
        proof {
            use_type_invariant(self);
        }
        let mut out = String::new();
        match self.error_kind {
            ErrorKind::UnderflowedStack { index, stack_size } => {
                let word = match &self.cmds[index] {
                    Cmd::Literal(LiteralType::NumF(bits)) => {
                        let number = show_real(*bits);
                        format_cmd(&self.cmds[index], number.as_str())
                    },
                    _ => format_cmd(&self.cmds[index], ""),
                };
                let ghost shown = choose|shown: Seq<char>|
                    word@ == word_of(self.cmds@[index as int]@, shown);
                push_word(&mut out, "Attempt to pop beyond stack size. instruction: ");
                push_word(&mut out, word.as_str());
                push_word(&mut out, " index: ");
                push_numeral(&mut out, index as u64, false);
                push_word(&mut out, ", size of stack ");
                push_signed(&mut out, stack_size as i64);
            },
            ErrorKind::EmptyProgram => {
                push_word(&mut out, "Program is empty: [");
                let ghost head = out@;
                let mut i: usize = 0;
                while i < self.cmds.len()
                    invariant
                        i <= self.cmds.len(),
                        out@ == head + debug_items(self.cmds@.take(i as int)),
                    decreases self.cmds.len() - i,
                {
                    let ghost seen = self.cmds@.take(i as int);
                    let ghost next = self.cmds@.take(i + 1);
                    assert(next.drop_last() == seen);
                    if i > 0 {
                        push_word(&mut out, ", ");
                    }
                    push_debug(&mut out, &self.cmds[i]);
                    i += 1;
                }
                assert(self.cmds@.take(i as int) == self.cmds@);
                push_word(&mut out, "]");
            },
        }
        out
    }

    /// The commands that were refused.
    pub closed spec fn code(&self) -> Seq<Cmd> {
        self.cmds@
    }

    /// Why they were refused.
    pub closed spec fn kind(&self) -> ErrorKind {
        self.error_kind
    }

    pub fn into_code(self) -> (cmds: Vec<Cmd>)
        ensures
            cmds@ == self.code(),
    {
        self.cmds
    }

    pub fn as_code(&self) -> (cmds: &[Cmd])
        ensures
            cmds@ == self.code(),
    {
        self.cmds.as_slice()
    }

    pub fn error_kind(&self) -> (kind: &ErrorKind)
        ensures
            *kind == self.kind(),
    {
        &self.error_kind
    }
}

/// Checks that no command pops from an empty stack and that exactly one
/// value, the result, is left, and collects the annotations.
///
/// Fails with `UnderflowedStack` at the first command that is no annotation
/// and would leave the stack empty or short, and with `EmptyProgram` where
/// every command passes but the stack is not left with one value: with
/// none, or with more than one.
pub fn compile(cmds: Vec<Cmd>) -> (res: Result<Program, CompileError>)
    ensures
        match res {
            Ok(program) => compiles(cmds@) && program.code() == cmds@,
            Err(error) => error.code() == cmds@ && match error.kind() {
                ErrorKind::UnderflowedStack { index, stack_size } => {
                    &&& index < cmds.len()
                    &&& admits_all(cmds@, index as int)
                    &&& !admits(cmds@, index as int)
                    &&& stack_size == reported(depth(cmds@.take(index as int)))
                },
                ErrorKind::EmptyProgram => {
                    &&& admits_all(cmds@, cmds.len() as int)
                    &&& depth(cmds@) != 1
                },
            },
        },
{
    let mut meta: Vec<(String, Vec<String>)> = Vec::new();
    let mut scanned: usize = 0;
    proof {
        assert(cmds@.take(0) == Seq::<Cmd>::empty());
        assert(entry_keys(meta@) =~= keys_of(cmds@.take(0)));
    }
    while scanned < cmds.len()
        invariant
            scanned <= cmds.len(),
            is_mapping(meta@, cmds@.take(scanned as int)),
        decreases cmds.len() - scanned,
    {
        let ghost seen = cmds@.take(scanned as int);
        let ghost next = cmds@.take(scanned + 1);
        let ghost before = meta@;
        assert(next.drop_last() == seen);
        if let Cmd::Meta(k, v) = &cmds[scanned] {
            match entry_of(&meta, k.as_str()) {
                Some(at) => {
                    meta[at].1.push(v.clone());
                    proof {
                        assert(entry_keys(before)[at as int] == k@);
                        assert(entry_keys(meta@) =~= entry_keys(before));
                        assert forall|i: int| 0 <= i < meta@.len() implies (#[trigger] meta@[i]).1@.len()
                            > 0 && texts(meta@[i].1@) == values_of(next, meta@[i].0@) by {}
                        lemma_keys_stay(before, meta@, seen, next, k@);
                    }
                },
                None => {
                    let mut values: Vec<String> = Vec::new();
                    values.push(v.clone());
                    meta.push((k.clone(), values));
                    proof {
                        let last = before.len() as int;
                        assert(!entry_keys(before).contains(k@)) by {
                            if entry_keys(before).contains(k@) {
                                let i = choose|i: int|
                                    0 <= i < before.len() && entry_keys(before)[i] == k@;
                                assert(before[i].0@ == k@);
                            }
                        }
                        assert(entry_keys(meta@) =~= entry_keys(before).push(k@));
                        assert(values_of(seen, k@).len() == 0);
                        assert(texts(meta@[last].1@) =~= values_of(next, k@));
                        lemma_keys_stay(before, meta@, seen, next, k@);
                    }
                },
            }
        } else {
            assert forall|key: Seq<char>| values_of(next, key) == values_of(seen, key) by {}
            assert(keys_of(next) == keys_of(seen));
        }
        scanned += 1;
    }
    assert(cmds@.take(cmds.len() as int) == cmds@);

    // The depth is kept unsigned: it is never negative while the commands pass.
    let mut stack_size: usize = 0;
    let mut index: usize = 0;
    while index < cmds.len()
        invariant
            index <= cmds.len(),
            admits_all(cmds@, index as int),
            stack_size == depth(cmds@.take(index as int)),
            is_mapping(meta@, cmds@),
        decreases cmds.len() - index,
    {
        proof {
            lemma_depth_bound(cmds@.take(index as int));
            assert(cmds@.take(index + 1).drop_last() == cmds@.take(index as int));
        }
        let change = cmds[index].stack_change();
        let annotation = match &cmds[index] {
            Cmd::Meta(_, _) | Cmd::Comment(_) => true,
            _ => false,
        };
        if change >= 0 {
            if !annotation && stack_size == 0 && change == 0 {
                let error_kind = ErrorKind::UnderflowedStack { index, stack_size: 0 };
                return Err(CompileError { cmds, error_kind });
            }
            stack_size = stack_size + change as usize;
        } else {
            let needed: usize = match &cmds[index] {
                Cmd::Arr(n) => *n,
                _ => (-change) as usize,
            };
            if stack_size <= needed {
                let error_kind = ErrorKind::UnderflowedStack {
                    index,
                    stack_size: if stack_size > isize::MAX as usize {
                        isize::MAX
                    } else {
                        stack_size as isize
                    },
                };
                return Err(CompileError { cmds, error_kind });
            }
            stack_size = stack_size - needed;
        }
        index += 1;
    }

    // Disallow programs which end up with an empty stack, because there is
    // nothing to return when this happens, and programs which end up with
    // more than the result.
    if stack_size != 1 {
        return Err(CompileError { cmds, error_kind: ErrorKind::EmptyProgram });
    }
    Ok(Program { cmds, meta })
}

} // verus!
