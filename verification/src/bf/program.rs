use std::collections::HashMap;
use vstd::prelude::*;

verus! {

broadcast use vstd::std_specs::hash::group_hash_axioms;

/// One instruction of the tape machine.
#[derive(Debug, Copy, Clone, PartialEq, Eq, Structural)]
pub enum BFChar {
    Plus,
    Minus,
    Left,
    Right,
    StartLoop,
    EndLoop,
    Input,
    Output,
}

impl BFChar {
    /// What the instruction adds to the number of open loops.
    pub open spec fn delta(self) -> int {
        match self {
            BFChar::StartLoop => 1,
            BFChar::EndLoop => -1,
            _ => 0,
        }
    }

    /// The instruction opens or closes a loop.
    pub open spec fn is_loop(self) -> bool {
        self == BFChar::StartLoop || self == BFChar::EndLoop
    }
}

/// The brace balance of `s`: loops opened less loops closed.
pub open spec fn balance(s: Seq<BFChar>) -> int
    decreases s.len(),
{
    if s.len() == 0 {
        0
    } else {
        balance(s.drop_last()) + s.last().delta()
    }
}

/// No prefix of `s` closes more loops than it has opened.
pub open spec fn never_negative(s: Seq<BFChar>) -> bool {
    forall|k: int| 0 <= k <= s.len() ==> balance(#[trigger] s.take(k)) >= 0
}

/// The loops of `s` nest: no prefix has a negative balance, and the balance
/// of the whole is zero.
pub open spec fn well_nested(s: Seq<BFChar>) -> bool {
    never_negative(s) && balance(s) == 0
}

/// The loop opened at `open` is the one closed at `close`: what stands
/// between the two nests by itself.
pub open spec fn is_pair(s: Seq<BFChar>, open: int, close: int) -> bool {
    &&& 0 <= open < close < s.len()
    &&& s[open] == BFChar::StartLoop
    &&& s[close] == BFChar::EndLoop
    &&& well_nested(s.subrange(open + 1, close))
}

/// `table` is the jump table of `s`: its keys are the places of the
/// instructions that open and close loops, and it maps each to the place of
/// its partner.
pub open spec fn is_jump_table(s: Seq<BFChar>, table: Map<usize, usize>) -> bool {
    &&& forall|k: usize| #[trigger] table.contains_key(k) ==> k < s.len() && s[k as int].is_loop()
    &&& forall|i: int|
        0 <= i < s.len() ==> match #[trigger] s[i] {
            BFChar::StartLoop => table.contains_key(i as usize) && is_pair(
                s,
                i,
                table[i as usize] as int,
            ),
            BFChar::EndLoop => table.contains_key(i as usize) && is_pair(
                s,
                table[i as usize] as int,
                i,
            ),
            _ => true,
        }
}

/// The balance of a concatenation is the sum of the balances.
pub proof fn lemma_balance_concat(a: Seq<BFChar>, b: Seq<BFChar>)
    ensures
        balance(a + b) == balance(a) + balance(b),
    decreases b.len(),
{
    if b.len() > 0 {
        assert((a + b).drop_last() == a + b.drop_last());
        lemma_balance_concat(a, b.drop_last());
    }
}

/// The balance of one instruction is its delta.
pub proof fn lemma_balance_single(c: BFChar)
    ensures
        balance(seq![c]) == c.delta(),
{
    assert(balance(seq![c].drop_last()) == 0);
}

/// A sequence whose prefixes stay non-negative, followed by one whose
/// prefixes never take more than the first has left, is such a sequence.
pub proof fn lemma_never_negative_concat(a: Seq<BFChar>, b: Seq<BFChar>)
    requires
        never_negative(a),
        forall|k: int| 0 <= k <= b.len() ==> balance(a) + balance(#[trigger] b.take(k)) >= 0,
    ensures
        never_negative(a + b),
{
    assert forall|k: int| 0 <= k <= (a + b).len() implies balance(#[trigger] (a + b).take(k))
        >= 0 by {
        if k <= a.len() {
            assert((a + b).take(k) == a.take(k));
        } else {
            assert((a + b).take(k) == a + b.take(k - a.len()));
            lemma_balance_concat(a, b.take(k - a.len()));
        }
    }
}

/// Two nested sequences in a row nest.
pub proof fn lemma_well_nested_concat(a: Seq<BFChar>, b: Seq<BFChar>)
    requires
        well_nested(a),
        well_nested(b),
    ensures
        well_nested(a + b),
{
    lemma_never_negative_concat(a, b);
    lemma_balance_concat(a, b);
}

/// A nested sequence inside a loop nests.
pub proof fn lemma_well_nested_wrap(b: Seq<BFChar>)
    requires
        well_nested(b),
    ensures
        well_nested(seq![BFChar::StartLoop] + b + seq![BFChar::EndLoop]),
{
    let open = seq![BFChar::StartLoop];
    let close = seq![BFChar::EndLoop];
    lemma_balance_single(BFChar::StartLoop);
    lemma_balance_single(BFChar::EndLoop);
    assert(never_negative(open)) by {
        assert forall|k: int| 0 <= k <= open.len() implies balance(#[trigger] open.take(k))
            >= 0 by {
            if k > 0 {
                assert(open.take(1) == open);
            }
        }
    }
    lemma_never_negative_concat(open, b);
    lemma_balance_concat(open, b);
    assert forall|k: int| 0 <= k <= close.len() implies balance(open + b) + balance(
        #[trigger] close.take(k),
    ) >= 0 by {
        if k > 0 {
            assert(close.take(1) == close);
        }
    }
    lemma_never_negative_concat(open + b, close);
    lemma_balance_concat(open + b, close);
}

/// A nested sequence followed by an instruction that is no part of a loop
/// nests.
pub proof fn lemma_well_nested_push(a: Seq<BFChar>, c: BFChar)
    requires
        well_nested(a),
        !c.is_loop(),
    ensures
        well_nested(a.push(c)),
{
    let one = seq![c];
    lemma_balance_single(c);
    assert forall|k: int| 0 <= k <= one.len() implies balance(a) + balance(
        #[trigger] one.take(k),
    ) >= 0 by {
        if k > 0 {
            assert(one.take(1) == one);
        }
    }
    lemma_never_negative_concat(a, one);
    lemma_balance_concat(a, one);
    assert(a.push(c) == a + one);
}

/// A sequence whose prefixes stay non-negative stays such with one more
/// instruction that leaves the balance non-negative.
pub proof fn lemma_never_negative_push(a: Seq<BFChar>, c: BFChar)
    requires
        never_negative(a),
        balance(a) + c.delta() >= 0,
    ensures
        never_negative(a.push(c)),
{
    let one = seq![c];
    lemma_balance_single(c);
    assert(a.take(a.len() as int) == a);
    assert forall|k: int| 0 <= k <= one.len() implies balance(a) + balance(
        #[trigger] one.take(k),
    ) >= 0 by {
        if k > 0 {
            assert(one.take(1) == one);
        }
    }
    lemma_never_negative_concat(a, one);
    assert(a.push(c) == a + one);
}

/// A loop that opens at `open` closes at one place only.
pub proof fn lemma_pair_unique_close(s: Seq<BFChar>, open: int, c1: int, c2: int)
    requires
        is_pair(s, open, c1),
        is_pair(s, open, c2),
    ensures
        c1 == c2,
{
    if c1 != c2 {
        let (near, far) = if c1 < c2 { (c1, c2) } else { (c2, c1) };
        let inner = s.subrange(open + 1, near);
        let outer = s.subrange(open + 1, far);
        let k = near - open;
        assert(outer.take(k) == inner + seq![BFChar::EndLoop]);
        lemma_balance_concat(inner, seq![BFChar::EndLoop]);
        lemma_balance_single(BFChar::EndLoop);
    }
}

/// A loop that closes at `close` opens at one place only.
pub proof fn lemma_pair_unique_open(s: Seq<BFChar>, o1: int, o2: int, close: int)
    requires
        is_pair(s, o1, close),
        is_pair(s, o2, close),
    ensures
        o1 == o2,
{
    if o1 != o2 {
        let (first, second) = if o1 < o2 { (o1, o2) } else { (o2, o1) };
        let outer = s.subrange(first + 1, close);
        let inner = s.subrange(second + 1, close);
        let head = s.subrange(first + 1, second);
        assert(outer == head + seq![BFChar::StartLoop] + inner);
        lemma_balance_concat(head + seq![BFChar::StartLoop], inner);
        lemma_balance_concat(head, seq![BFChar::StartLoop]);
        lemma_balance_single(BFChar::StartLoop);
        assert(outer.take(second - first - 1) == head);
    }
}

/// There is one jump table: two tables of one program are equal.
pub proof fn lemma_jump_table_unique(
    s: Seq<BFChar>,
    t1: Map<usize, usize>,
    t2: Map<usize, usize>,
)
    requires
        is_jump_table(s, t1),
        is_jump_table(s, t2),
    ensures
        t1 == t2,
{
    assert forall|k: usize| t1.contains_key(k) == t2.contains_key(k) by {
        if t1.contains_key(k) {
            assert(s[k as int].is_loop());
        }
        if t2.contains_key(k) {
            assert(s[k as int].is_loop());
        }
    }
    assert forall|k: usize| t1.contains_key(k) implies t1[k] == t2[k] by {
        assert(s[k as int].is_loop());
        match s[k as int] {
            BFChar::StartLoop => lemma_pair_unique_close(s, k as int, t1[k] as int, t2[k] as int),
            BFChar::EndLoop => lemma_pair_unique_open(s, t1[k] as int, t2[k] as int, k as int),
            _ => {},
        }
    }
    assert(t1 =~= t2);
}

/// Whether the loops of `program` nest: scans once, counting the open loops;
/// fails as soon as the count goes negative, and asks that it end at zero.
pub fn is_valid(program: &[BFChar]) -> (valid: bool)
    ensures
        valid == well_nested(program@),
{
    let mut num_open_braces: usize = 0;
    let mut i: usize = 0;
    while i < program.len()
        invariant
            i <= program.len(),
            num_open_braces == balance(program@.take(i as int)),
            never_negative(program@.take(i as int)),
        decreases program.len() - i,
    {
        let ghost s = program@;
        assert(s.take(i + 1).drop_last() == s.take(i as int));
        proof {
            lemma_balance_bound(s.take(i as int));
        }
        match program[i] {
            BFChar::StartLoop => {
                num_open_braces += 1;
            },
            BFChar::EndLoop => {
                if num_open_braces == 0 {
                    return false;
                }
                num_open_braces -= 1;
            },
            _ => {},
        }
        assert forall|k: int| 0 <= k <= i + 1 implies balance(#[trigger] s.take(i + 1).take(k))
            >= 0 by {
            if k <= i {
                assert(s.take(i + 1).take(k) == s.take(i as int).take(k));
            } else {
                assert(s.take(i + 1).take(k) == s.take(i + 1));
            }
        }
        i += 1;
    }
    assert(program@.take(i as int) == program@);
    num_open_braces == 0
}

/// The balance of a sequence is at most its length.
pub proof fn lemma_balance_bound(s: Seq<BFChar>)
    ensures
        balance(s) <= s.len(),
    decreases s.len(),
{
    if s.len() > 0 {
        lemma_balance_bound(s.drop_last());
    }
}

/// The start of the `k`-th stretch that the pending loops `pending` cut the
/// scanned instructions into.
pub open spec fn stretch_start(pending: Seq<usize>, k: int) -> int {
    if k == 0 {
        0
    } else {
        pending[k - 1] + 1
    }
}

/// The end of the `k`-th stretch, where `scanned` instructions were read.
pub open spec fn stretch_end(pending: Seq<usize>, k: int, scanned: int) -> int {
    if k == pending.len() {
        scanned
    } else {
        pending[k] as int
    }
}

/// What holds of the scan that builds a jump table after `scanned`
/// instructions: `pending` holds the loops still open, in their order, what
/// stands between them nests, and the table holds the loops that were
/// scanned, with its partner for every loop that was closed.
pub open spec fn scan_holds(
    s: Seq<BFChar>,
    scanned: int,
    pending: Seq<usize>,
    table: Map<usize, usize>,
) -> bool {
    &&& 0 <= scanned <= s.len()
    &&& pending.len() == balance(s.take(scanned))
    &&& forall|k: int|
        0 <= k < pending.len() ==> #[trigger] pending[k] < scanned && s[pending[k] as int]
            == BFChar::StartLoop
    &&& forall|k: int|
        0 <= k <= pending.len() ==> 0 <= #[trigger] stretch_start(pending, k) <= stretch_end(
            pending,
            k,
            scanned,
        ) && well_nested(s.subrange(stretch_start(pending, k), stretch_end(pending, k, scanned)))
    &&& forall|k: usize|
        #[trigger] table.contains_key(k) ==> k < scanned && s[k as int].is_loop()
    &&& forall|i: int|
        0 <= i < scanned ==> match #[trigger] s[i] {
            BFChar::StartLoop => table.contains_key(i as usize) && (pending.contains(i as usize)
                || is_pair(s, i, table[i as usize] as int)),
            BFChar::EndLoop => table.contains_key(i as usize) && is_pair(
                s,
                table[i as usize] as int,
                i,
            ),
            _ => true,
        }
}

/// The scan goes on over an instruction that opens a loop: the loop is
/// pending and has an entry.
proof fn lemma_scan_open(
    s: Seq<BFChar>,
    n: int,
    pending: Seq<usize>,
    table: Map<usize, usize>,
)
    requires
        scan_holds(s, n, pending, table),
        n < s.len() <= usize::MAX,
        s[n] == BFChar::StartLoop,
    ensures
        scan_holds(s, n + 1, pending.push(n as usize), table.insert(n as usize, 0)),
{
    let grown = pending.push(n as usize);
    let after = table.insert(n as usize, 0);
    let depth = pending.len() as int;
    assert(s.take(n + 1).drop_last() == s.take(n));
    assert(s.subrange(n + 1, n + 1) == Seq::<BFChar>::empty());
    assert(Seq::<BFChar>::empty().take(0) == Seq::<BFChar>::empty());
    assert(well_nested(Seq::<BFChar>::empty()));
    assert forall|k: int| 0 <= k <= grown.len() implies 0 <= #[trigger] stretch_start(grown, k)
        <= stretch_end(grown, k, n + 1) && well_nested(
        s.subrange(stretch_start(grown, k), stretch_end(grown, k, n + 1)),
    ) by {
        if k <= depth {
            assert(stretch_start(grown, k) == stretch_start(pending, k));
            assert(stretch_end(grown, k, n + 1) == stretch_end(pending, k, n));
        } else {
            assert(stretch_start(grown, k) == n + 1);
        }
    }
    assert forall|j: int| 0 <= j < n + 1 implies match #[trigger] s[j] {
        BFChar::StartLoop => after.contains_key(j as usize) && (grown.contains(j as usize)
            || is_pair(s, j, after[j as usize] as int)),
        BFChar::EndLoop => after.contains_key(j as usize) && is_pair(
            s,
            after[j as usize] as int,
            j,
        ),
        _ => true,
    } by {
        if j < n {
            assert(after[j as usize] == table[j as usize]);
            if s[j] == BFChar::StartLoop && pending.contains(j as usize) {
                let w = choose|w: int| 0 <= w < pending.len() && pending[w] == j;
                assert(grown[w] == j);
            }
        } else {
            assert(grown[depth] == n);
        }
    }
}

/// The scan goes on over an instruction that closes a loop: it is the
/// partner of the loop that was opened last, and each gets the other.
proof fn lemma_scan_close(
    s: Seq<BFChar>,
    n: int,
    pending: Seq<usize>,
    table: Map<usize, usize>,
)
    requires
        scan_holds(s, n, pending, table),
        n < s.len() <= usize::MAX,
        s[n] == BFChar::EndLoop,
        pending.len() > 0,
    ensures
        scan_holds(
            s,
            n + 1,
            pending.drop_last(),
            table.insert(pending.last(), n as usize).insert(n as usize, pending.last()),
        ),
        is_pair(s, pending.last() as int, n),
{
    let start = pending.last();
    let shrunk = pending.drop_last();
    let after = table.insert(start, n as usize).insert(n as usize, start);
    let depth = pending.len() as int;
    assert(s.take(n + 1).drop_last() == s.take(n));
    assert(pending[depth - 1] == start);
    let inner = s.subrange(start + 1, n);
    assert(well_nested(inner)) by {
        assert(stretch_start(pending, depth) == start + 1);
        assert(stretch_end(pending, depth, n) == n);
    }
    let before = stretch_start(pending, depth - 1);
    let head = s.subrange(before, start as int);
    assert(well_nested(head) && 0 <= before <= start) by {
        assert(stretch_end(pending, depth - 1, n) == start);
    }
    lemma_well_nested_wrap(inner);
    lemma_well_nested_concat(head, seq![BFChar::StartLoop] + inner + seq![BFChar::EndLoop]);
    assert(s.subrange(before, n + 1) == head + (seq![BFChar::StartLoop] + inner
        + seq![BFChar::EndLoop]));
    assert forall|k: int| 0 <= k <= shrunk.len() implies 0 <= #[trigger] stretch_start(shrunk, k)
        <= stretch_end(shrunk, k, n + 1) && well_nested(
        s.subrange(stretch_start(shrunk, k), stretch_end(shrunk, k, n + 1)),
    ) by {
        assert(stretch_start(shrunk, k) == stretch_start(pending, k));
        if k < shrunk.len() {
            assert(stretch_end(shrunk, k, n + 1) == stretch_end(pending, k, n));
        } else {
            assert(stretch_start(shrunk, k) == before);
        }
    }
    assert forall|j: int| 0 <= j < n + 1 implies match #[trigger] s[j] {
        BFChar::StartLoop => after.contains_key(j as usize) && (shrunk.contains(j as usize)
            || is_pair(s, j, after[j as usize] as int)),
        BFChar::EndLoop => after.contains_key(j as usize) && is_pair(
            s,
            after[j as usize] as int,
            j,
        ),
        _ => true,
    } by {
        if j < n && j != start {
            assert(after[j as usize] == table[j as usize]);
            if s[j] == BFChar::StartLoop && pending.contains(j as usize) {
                let w = choose|w: int| 0 <= w < pending.len() && pending[w] == j;
                assert(shrunk[w] == j);
            }
        }
    }
    assert forall|k: int| 0 <= k < shrunk.len() implies #[trigger] shrunk[k] < n + 1 && s[shrunk[k] as int]
        == BFChar::StartLoop by {
        assert(shrunk[k] == pending[k]);
    }
}

/// The scan goes on over an instruction that is no part of a loop: nothing
/// changes.
proof fn lemma_scan_pass(
    s: Seq<BFChar>,
    n: int,
    pending: Seq<usize>,
    table: Map<usize, usize>,
)
    requires
        scan_holds(s, n, pending, table),
        n < s.len(),
        !s[n].is_loop(),
    ensures
        scan_holds(s, n + 1, pending, table),
{
    let depth = pending.len() as int;
    let last_start = stretch_start(pending, depth);
    assert(s.take(n + 1).drop_last() == s.take(n));
    assert(stretch_end(pending, depth, n) == n);
    lemma_well_nested_push(s.subrange(last_start, n), s[n]);
    assert(s.subrange(last_start, n + 1) == s.subrange(last_start, n).push(s[n]));
    assert forall|k: int| 0 <= k <= pending.len() implies 0 <= #[trigger] stretch_start(
        pending,
        k,
    ) <= stretch_end(pending, k, n + 1) && well_nested(
        s.subrange(stretch_start(pending, k), stretch_end(pending, k, n + 1)),
    ) by {
        if k < pending.len() {
            assert(stretch_end(pending, k, n + 1) == stretch_end(pending, k, n));
        }
    }
}

/// At the end of the scan of a program whose loops nest no loop is open,
/// and the table is the jump table.
proof fn lemma_scan_done(s: Seq<BFChar>, pending: Seq<usize>, table: Map<usize, usize>)
    requires
        scan_holds(s, s.len() as int, pending, table),
        well_nested(s),
    ensures
        is_jump_table(s, table),
{
    assert(s.take(s.len() as int) == s);
    assert(pending.len() == 0);
    assert forall|j: int| 0 <= j < s.len() implies match #[trigger] s[j] {
        BFChar::StartLoop => table.contains_key(j as usize) && is_pair(
            s,
            j,
            table[j as usize] as int,
        ),
        BFChar::EndLoop => table.contains_key(j as usize) && is_pair(
            s,
            table[j as usize] as int,
            j,
        ),
        _ => true,
    } by {
        if s[j] == BFChar::StartLoop && pending.contains(j as usize) {
            let w = choose|w: int| 0 <= w < pending.len() && pending[w] == j;
        }
    }
}

/// Builds the jump table in one scan from left to right, with a stack of
/// the loops still open: an instruction that opens a loop is pushed and
/// gets an entry; one that closes a loop pops its partner, and each is
/// mapped to the other.
pub fn loop_dict(program: &[BFChar]) -> (table: HashMap<usize, usize>)
    requires
        well_nested(program@),
    ensures
        is_jump_table(program@, table@),
{
    let ghost s = program@;
    let mut hashmap: HashMap<usize, usize> = HashMap::new();
    let mut startloop_locs: Vec<usize> = Vec::new();
    let mut i: usize = 0;
    proof {
        assert(s.take(0) == Seq::<BFChar>::empty());
        assert(s.subrange(0, 0) == Seq::<BFChar>::empty());
        assert(Seq::<BFChar>::empty().take(0) == Seq::<BFChar>::empty());
    }
    while i < program.len()
        invariant
            s == program@,
            well_nested(s),
            scan_holds(s, i as int, startloop_locs@, hashmap@),
        decreases program.len() - i,
    {
        let ghost pending = startloop_locs@;
        let ghost old_table = hashmap@;
        match program[i] {
            BFChar::StartLoop => {
                // the entry is kept for the partner, which is not known yet
                hashmap.insert(i, 0);
                startloop_locs.push(i);
                proof {
                    lemma_scan_open(s, i as int, pending, old_table);
                }
            },
            BFChar::EndLoop => {
                proof {
                    assert(s.take(i + 1).drop_last() == s.take(i as int));
                    assert(balance(s.take(i + 1)) >= 0);
                }
                let start = startloop_locs.pop().unwrap();
                hashmap.insert(start, i);
                hashmap.insert(i, start);
                proof {
                    lemma_scan_close(s, i as int, pending, old_table);
                }
            },
            _ => {
                proof {
                    lemma_scan_pass(s, i as int, pending, old_table);
                }
            },
        }
        i += 1;
    }
    proof {
        lemma_scan_done(s, startloop_locs@, hashmap@);
    }
    hashmap
}

/// The error of a program whose loops do not nest.
#[derive(Debug, Copy, Clone, PartialEq, Eq, Structural)]
pub struct InvalidProgram;

/// A validated program with its jump table.
#[derive(Debug)]
pub struct Program {
    instrs: Vec<BFChar>,
    loop_dict: HashMap<usize, usize>,
}

impl View for Program {
    type V = Seq<BFChar>;

    closed spec fn view(&self) -> Seq<BFChar> {
        self.instrs@
    }
}

impl Program {
    #[verifier::type_invariant]
    spec fn valid(&self) -> bool {
        well_nested(self.instrs@) && is_jump_table(self.instrs@, self.loop_dict@)
    }

    /// Validates the instructions and builds the jump table. Fails where the
    /// loops do not nest.
    pub fn new(instrs: Vec<BFChar>) -> (res: Result<Program, InvalidProgram>)
        ensures
            match res {
                Ok(program) => program@ == instrs@ && well_nested(instrs@),
                Err(_) => !well_nested(instrs@),
            },
    {
        if !is_valid(instrs.as_slice()) {
            return Err(InvalidProgram);
        }
        let loop_dict = loop_dict(instrs.as_slice());
        Ok(Program { instrs, loop_dict })
    }

    /// The instructions of the program; their loops nest.
    pub fn instrs(&self) -> (instrs: &Vec<BFChar>)
        ensures
            instrs@ == self@,
            well_nested(self@),
    {
        proof {
            use_type_invariant(self);
        }
        &self.instrs
    }

    /// A program is no longer than a machine index can tell.
    pub proof fn lemma_len_fits(&self)
        ensures
            self@.len() <= usize::MAX,
    {
        assert(self.instrs.len() <= usize::MAX);
    }

    /// The number of instructions.
    pub fn len(&self) -> (len: usize)
        ensures
            len == self@.len(),
    {
        self.instrs.len()
    }

    /// The instruction at `i`.
    pub fn get(&self, i: usize) -> (instr: BFChar)
        requires
            i < self@.len(),
        ensures
            instr == self@[i as int],
    {
        self.instrs[i]
    }

    /// The partner of the loop instruction at `i`; `None` for an instruction
    /// that is no part of a loop.
    pub fn matching_loop(&self, i: usize) -> (partner: Option<usize>)
        requires
            i < self@.len(),
        ensures
            match self@[i as int] {
                BFChar::StartLoop => partner matches Some(close) && is_pair(
                    self@,
                    i as int,
                    close as int,
                ),
                BFChar::EndLoop => partner matches Some(open) && is_pair(
                    self@,
                    open as int,
                    i as int,
                ),
                _ => partner is None,
            },
    {
        proof {
            use_type_invariant(self);
        }
        match self.loop_dict.get(&i) {
            Some(partner) => Some(*partner),
            None => None,
        }
    }
}

} // verus!
