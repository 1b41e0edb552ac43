use vstd::prelude::*;

verus! {

/// Every byte of `string` is an unprintable one, from 0 to 31.
pub open spec fn all_unprintable(string: Seq<i8>) -> bool {
    forall|i: int| 0 <= i < string.len() ==> 0 <= #[trigger] string[i] <= 31
}

/// Every byte of `string` equals the first.
pub open spec fn all_same(string: Seq<i8>) -> bool {
    forall|i: int| 0 <= i < string.len() ==> #[trigger] string[i] == string[0]
}

/// How interesting an output is: 0 where nothing in it can be printed; a
/// quarter of its length where it repeats one byte; its length where it has
/// at most five bytes; else 100.
pub open spec fn score(string: Seq<i8>) -> int {
    if all_unprintable(string) {
        0
    } else if all_same(string) {
        string.len() as int / 4
    } else if string.len() <= 5 {
        string.len() as int
    } else {
        100
    }
}

/// Scores an output: `score`.
pub fn interest_score(string: &[i8]) -> (points: usize)
    ensures
        points == score(string@),
{
    // characters 0 thru 31 in ASCII are all unprintable and thus not very good
    let mut all_unprintable = true;
    let mut all_same = true;
    let mut i: usize = 0;
    while i < string.len()
        invariant
            i <= string.len(),
            all_unprintable == (forall|k: int| 0 <= k < i ==> 0 <= #[trigger] string@[k] <= 31),
            all_same == (forall|k: int| 0 <= k < i ==> #[trigger] string@[k] == string@[0]),
        decreases string.len() - i,
    {
        let x = string[i];
        if !(0 <= x && x <= 31) {
            all_unprintable = false;
        }
        if x != string[0] {
            all_same = false;
        }
        i += 1;
    }
    let very_short = string.len() <= 5;

    if all_unprintable {
        0
    } else if all_same {
        string.len() / 4
    } else if very_short {
        string.len()
    } else {
        100
    }
}

} // verus!
