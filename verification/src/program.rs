//! A program: its lines in the order in which they run.
use crate::lexer::{LineOfCode, LineView};
use vstd::prelude::*;

verus! {

/// The lines of a program, in ascending order of their numbers, each number
/// once.
pub struct Program {
    lines: Vec<LineOfCode>,
}

/// The views of a sequence of lines.
pub open spec fn lines_view(lines: Seq<LineOfCode>) -> Seq<LineView> {
    lines.map_values(|l: LineOfCode| l@)
}

/// Every line has a greater number than the lines before it.
pub open spec fn ascending(p: Seq<LineView>) -> bool {
    forall|i: int, j: int| 0 <= i < j < p.len() ==> p[i].line_number < p[j].line_number
}

/// The lines `p` with `line` put in its place: behind the lines with a
/// smaller number, before those with a greater, and instead of the last
/// line that has its number, if there is one.
pub open spec fn place(p: Seq<LineView>, line: LineView) -> Seq<LineView>
    decreases p.len(),
{
    if p.len() == 0 {
        seq![line]
    } else if p.last().line_number < line.line_number {
        p.push(line)
    } else if p.last().line_number == line.line_number {
        p.drop_last().push(line)
    } else {
        place(p.drop_last(), line).push(p.last())
    }
}

/// The program that a list of lines makes: each line is put in its place,
/// in the order of the list, so that of two lines with the same number the
/// later one stays.
pub open spec fn loaded(lines: Seq<LineView>) -> Seq<LineView>
    decreases lines.len(),
{
    if lines.len() == 0 {
        Seq::empty()
    } else {
        place(loaded(lines.drop_last()), lines.last())
    }
}

/// The last line of `lines` that has the number `n`, if there is one.
pub open spec fn latest(lines: Seq<LineView>, n: u32) -> Option<LineView>
    decreases lines.len(),
{
    if lines.len() == 0 {
        None
    } else if lines.last().line_number == n {
        Some(lines.last())
    } else {
        latest(lines.drop_last(), n)
    }
}

/// The index of the last line of `p` that has the number `n`, if there is
/// one.
pub open spec fn position(p: Seq<LineView>, n: u32) -> Option<int>
    decreases p.len(),
{
    if p.len() == 0 {
        None
    } else if p.last().line_number == n {
        Some(p.len() - 1)
    } else {
        position(p.drop_last(), n)
    }
}

/// Where `line` comes to stand: with `k` the index behind the lines whose
/// number is not greater, it takes the place of the line before `k` if that
/// has its number, and else goes in at `k`.
pub proof fn lemma_place_at(p: Seq<LineView>, line: LineView, k: int)
    requires
        0 <= k <= p.len(),
        forall|j: int| k <= j < p.len() ==> p[j].line_number > line.line_number,
        k > 0 ==> p[k - 1].line_number <= line.line_number,
    ensures
        place(p, line) == if k > 0 && p[k - 1].line_number == line.line_number {
            p.update(k - 1, line)
        } else {
            p.insert(k, line)
        },
    decreases p.len(),
{
    if p.len() == 0 {
        assert(p.insert(0, line) =~= seq![line]);
    } else if k == p.len() {
        if p.last().line_number < line.line_number {
            assert(p.insert(k, line) =~= p.push(line));
        } else {
            assert(p.update(k - 1, line) =~= p.drop_last().push(line));
        }
    } else {
        let q = p.drop_last();
        lemma_place_at(q, line, k);
        if k > 0 && p[k - 1].line_number == line.line_number {
            assert(q.update(k - 1, line).push(p.last()) =~= p.update(k - 1, line));
        } else {
            assert(q.insert(k, line).push(p.last()) =~= p.insert(k, line));
        }
    }
}

/// A line of `place(p, line)` is `line` or a line of `p`.
pub proof fn lemma_place_members(p: Seq<LineView>, line: LineView)
    ensures
        forall|j: int|
            0 <= j < place(p, line).len() ==> #[trigger] place(p, line)[j] == line || p.contains(
                place(p, line)[j],
            ),
    decreases p.len(),
{
    if p.len() > 0 && p.last().line_number > line.line_number {
        let q = p.drop_last();
        lemma_place_members(q, line);
        assert forall|j: int| 0 <= j < place(p, line).len() implies #[trigger] place(
            p,
            line,
        )[j] == line || p.contains(place(p, line)[j]) by {
            if j < place(q, line).len() {
                let x = place(q, line)[j];
                if x != line {
                    let i = choose|i: int| 0 <= i < q.len() && q[i] == x;
                    assert(p[i] == x);
                }
            } else {
                assert(p[p.len() - 1] == p.last());
            }
        }
    } else if p.len() > 0 {
        assert forall|j: int| 0 <= j < place(p, line).len() implies #[trigger] place(
            p,
            line,
        )[j] == line || p.contains(place(p, line)[j]) by {
            if place(p, line)[j] != line {
                assert(p[j] == place(p, line)[j]);
            }
        }
    }
}

/// Putting a line in its place keeps the order.
pub proof fn lemma_place_ascending(p: Seq<LineView>, line: LineView)
    requires
        ascending(p),
    ensures
        ascending(place(p, line)),
    decreases p.len(),
{
    if p.len() > 0 && p.last().line_number > line.line_number {
        let q = p.drop_last();
        let r = place(q, line);
        lemma_place_ascending(q, line);
        lemma_place_members(q, line);
        assert forall|i: int, j: int| 0 <= i < j < r.push(p.last()).len() implies r.push(
            p.last(),
        )[i].line_number < r.push(p.last())[j].line_number by {
            if j == r.len() {
                if r[i] != line {
                    let k = choose|k: int| 0 <= k < q.len() && q[k] == r[i];
                    assert(p[k].line_number < p[p.len() - 1].line_number);
                }
            }
        }
    }
}

/// The lines of a loaded program are in ascending order of their numbers.
pub proof fn lemma_loaded_ascending(lines: Seq<LineView>)
    ensures
        ascending(loaded(lines)),
    decreases lines.len(),
{
    if lines.len() > 0 {
        lemma_loaded_ascending(lines.drop_last());
        lemma_place_ascending(loaded(lines.drop_last()), lines.last());
    }
}

/// In lines that are in ascending order, the line at `i` is the one that
/// `position` finds for its number.
pub proof fn lemma_position_found(p: Seq<LineView>, i: int)
    requires
        ascending(p),
        0 <= i < p.len(),
    ensures
        position(p, p[i].line_number) == Some(i),
    decreases p.len(),
{
    if i < p.len() - 1 {
        lemma_position_found(p.drop_last(), i);
    }
}

/// `position` finds a line that has the number, and finds none only where
/// no line has it.
pub proof fn lemma_position_sound(p: Seq<LineView>, n: u32)
    ensures
        match position(p, n) {
            Some(i) => 0 <= i < p.len() && p[i].line_number == n,
            None => forall|j: int| 0 <= j < p.len() ==> p[j].line_number != n,
        },
    decreases p.len(),
{
    if p.len() > 0 && p.last().line_number != n {
        let q = p.drop_last();
        lemma_position_sound(q, n);
        if position(p, n) is None {
            assert forall|j: int| 0 <= j < p.len() implies p[j].line_number != n by {
                if j < q.len() {
                    assert(q[j] == p[j]);
                }
            }
        }
    }
}

/// No two lines have the same number.
pub open spec fn distinct_numbers(lines: Seq<LineView>) -> bool {
    forall|i: int, j: int|
        0 <= i < j < lines.len() ==> lines[i].line_number != lines[j].line_number
}

/// After `line` is put in its place, it is the line with its number, and
/// every other number has the line that it had.
pub proof fn lemma_latest_place(p: Seq<LineView>, line: LineView, n: u32)
    ensures
        latest(place(p, line), n) == if n == line.line_number {
            Some(line)
        } else {
            latest(p, n)
        },
    decreases p.len(),
{
    let r = place(p, line);
    if p.len() == 0 {
        assert(r.drop_last() =~= Seq::<LineView>::empty());
        assert(r.last() == line);
        assert(latest(r.drop_last(), n) is None);
    } else if p.last().line_number < line.line_number {
        assert(r.drop_last() =~= p);
        assert(r.last() == line);
    } else if p.last().line_number == line.line_number {
        assert(r.drop_last() =~= p.drop_last());
        assert(r.last() == line);
    } else {
        let q = place(p.drop_last(), line);
        lemma_latest_place(p.drop_last(), line, n);
        assert(r.drop_last() =~= q);
        assert(r.last() == p.last());
    }
}

/// A loaded program has, for every number, the last line of the list that
/// has the number.
pub proof fn lemma_latest_loaded(lines: Seq<LineView>, n: u32)
    ensures
        latest(loaded(lines), n) == latest(lines, n),
    decreases lines.len(),
{
    if lines.len() > 0 {
        lemma_latest_loaded(lines.drop_last(), n);
        lemma_latest_place(loaded(lines.drop_last()), lines.last(), n);
    }
}

/// What `latest` finds is a line of the list with the number, and it finds
/// none only where no line has the number.
pub proof fn lemma_latest_sound(lines: Seq<LineView>, n: u32)
    ensures
        match latest(lines, n) {
            Some(line) => lines.contains(line) && line.line_number == n,
            None => forall|i: int| 0 <= i < lines.len() ==> lines[i].line_number != n,
        },
    decreases lines.len(),
{
    if lines.len() > 0 {
        if lines.last().line_number == n {
            assert(lines[lines.len() - 1] == lines.last());
        } else {
            let q = lines.drop_last();
            lemma_latest_sound(q, n);
            match latest(q, n) {
                Some(line) => {
                    let i = choose|i: int| 0 <= i < q.len() && q[i] == line;
                    assert(lines[i] == line);
                },
                None => {
                    assert forall|i: int| 0 <= i < lines.len() implies lines[i].line_number
                        != n by {
                        if i < q.len() {
                            assert(q[i] == lines[i]);
                        }
                    }
                },
            }
        }
    }
}

/// Where no two lines have the same number, `latest` finds each line by
/// its number.
pub proof fn lemma_latest_of_distinct(lines: Seq<LineView>, i: int)
    requires
        distinct_numbers(lines),
        0 <= i < lines.len(),
    ensures
        latest(lines, lines[i].line_number) == Some(lines[i]),
    decreases lines.len(),
{
    if i < lines.len() - 1 {
        let q = lines.drop_last();
        assert(distinct_numbers(q)) by {
            assert forall|a: int, b: int| 0 <= a < b < q.len() implies q[a].line_number
                != q[b].line_number by {
                assert(q[a] == lines[a] && q[b] == lines[b]);
            }
        }
        lemma_latest_of_distinct(q, i);
    }
}

/// Two programs in ascending order that have the same line for every
/// number are the same.
pub proof fn lemma_ascending_unique(p: Seq<LineView>, q: Seq<LineView>)
    requires
        ascending(p),
        ascending(q),
        forall|n: u32| latest(p, n) == latest(q, n),
    ensures
        p == q,
    decreases p.len(),
{
    if p.len() == 0 {
        if q.len() > 0 {
            assert(latest(q, q.last().line_number) is Some);
            assert(latest(p, q.last().line_number) is None);
        }
        assert(p =~= q);
    } else {
        let top = p.last();
        assert(latest(p, top.line_number) == Some(top));
        lemma_latest_sound(q, top.line_number);
        assert(q.len() > 0);
        let other = q.last();
        assert(latest(q, other.line_number) == Some(other));
        lemma_latest_sound(p, other.line_number);
        let i = choose|i: int| 0 <= i < q.len() && q[i] == top;
        let j = choose|j: int| 0 <= j < p.len() && p[j] == other;
        assert(top.line_number == other.line_number) by {
            if i < q.len() - 1 {
                assert(q[i].line_number < q[q.len() - 1].line_number);
            }
            if j < p.len() - 1 {
                assert(p[j].line_number < p[p.len() - 1].line_number);
            }
        }
        assert(top == other);
        let lower_p = p.drop_last();
        let lower_q = q.drop_last();
        assert forall|n: u32| latest(lower_p, n) == latest(lower_q, n) by {
            if n == top.line_number {
                lemma_latest_sound(lower_p, n);
                lemma_latest_sound(lower_q, n);
                if latest(lower_p, n) is Some {
                    let k = choose|k: int| 0 <= k < lower_p.len() && lower_p[k] == latest(lower_p, n)->Some_0;
                    assert(p[k].line_number < p[p.len() - 1].line_number);
                }
                if latest(lower_q, n) is Some {
                    let k = choose|k: int| 0 <= k < lower_q.len() && lower_q[k] == latest(lower_q, n)->Some_0;
                    assert(q[k].line_number < q[q.len() - 1].line_number);
                }
            } else {
                assert(latest(p, n) == latest(q, n));
            }
        }
        assert(ascending(lower_p)) by {
            assert forall|a: int, b: int| 0 <= a < b < lower_p.len() implies lower_p[a].line_number
                < lower_p[b].line_number by {
                assert(lower_p[a] == p[a] && lower_p[b] == p[b]);
            }
        }
        assert(ascending(lower_q)) by {
            assert forall|a: int, b: int| 0 <= a < b < lower_q.len() implies lower_q[a].line_number
                < lower_q[b].line_number by {
                assert(lower_q[a] == q[a] && lower_q[b] == q[b]);
            }
        }
        lemma_ascending_unique(lower_p, lower_q);
        assert(p =~= lower_p.push(top));
        assert(q =~= lower_q.push(other));
    }
}

/// The program does not depend on the order in which its lines are given:
/// two lists that hold the same lines, no two of them with the same number,
/// make the same program, whose lines run in ascending order of their
/// numbers.
pub proof fn lemma_load_order_independent(a: Seq<LineView>, b: Seq<LineView>)
    requires
        a.to_multiset() == b.to_multiset(),
        distinct_numbers(a),
    ensures
        loaded(a) == loaded(b),
        ascending(loaded(a)),
{
    lemma_loaded_ascending(a);
    lemma_loaded_ascending(b);
    assert forall|n: u32| latest(loaded(a), n) == latest(loaded(b), n) by {
        lemma_latest_loaded(a, n);
        lemma_latest_loaded(b, n);
        lemma_latest_sound(a, n);
        lemma_latest_sound(b, n);
        match latest(b, n) {
            Some(line) => {
                vstd::seq_lib::to_multiset_contains(a, line);
                vstd::seq_lib::to_multiset_contains(b, line);
                let i = choose|i: int| 0 <= i < a.len() && a[i] == line;
                lemma_latest_of_distinct(a, i);
            },
            None => {
                if latest(a, n) is Some {
                    let line = latest(a, n)->Some_0;
                    vstd::seq_lib::to_multiset_contains(a, line);
                    vstd::seq_lib::to_multiset_contains(b, line);
                    let i = choose|i: int| 0 <= i < b.len() && b[i] == line;
                    assert(b[i].line_number == n);
                }
            },
        }
    }
    lemma_ascending_unique(loaded(a), loaded(b));
}

/// Puts `line` in its place among `lines`.
fn insert_line(lines: &mut Vec<LineOfCode>, line: LineOfCode)
    requires
        ascending(lines_view(old(lines)@)),
    ensures
        lines_view(final(lines)@) == place(lines_view(old(lines)@), line@),
        ascending(lines_view(final(lines)@)),
{
    let number = line.line_number.0;
    let ghost p = lines_view(lines@);
    let mut k: usize = lines.len();
    while k > 0 && lines[k - 1].line_number.0 > number
        invariant
            k <= lines@.len(),
            p == lines_view(lines@),
            lines@ == old(lines)@,
            forall|j: int| k <= j < p.len() ==> p[j].line_number > number,
        decreases k,
    {
        k = k - 1;
    }
    proof {
        lemma_place_at(p, line@, k as int);
        lemma_place_ascending(p, line@);
    }
    if k > 0 && lines[k - 1].line_number.0 == number {
        lines.set(k - 1, line);
        proof {
            assert(lines_view(lines@) =~= p.update(k - 1, line@));
        }
    } else {
        lines.insert(k, line);
        proof {
            assert(lines_view(lines@) =~= p.insert(k as int, line@));
        }
    }
}

impl View for Program {
    type V = Seq<LineView>;

    closed spec fn view(&self) -> Seq<LineView> {
        lines_view(self.lines@)
    }
}

impl Program {
    #[verifier::type_invariant]
    spec fn in_order(self) -> bool {
        ascending(lines_view(self.lines@))
    }

    /// Makes a program of lines given in any order. Of two lines with the
    /// same number, the later one stays.
    pub fn load(code_lines: Vec<LineOfCode>) -> (r: Program)
        ensures
            r@ == loaded(lines_view(code_lines@)),
    {
        let mut lines: Vec<LineOfCode> = Vec::new();
        let ghost all = lines_view(code_lines@);
        proof {
            assert(lines_view(lines@) =~= Seq::empty());
            assert(all.take(0) =~= Seq::empty());
        }
        for line in it: code_lines
            invariant
                it.seq() == code_lines@,
                all == lines_view(code_lines@),
                ascending(lines_view(lines@)),
                lines_view(lines@) == loaded(all.take(it.index() as int)),
        {
            proof {
                assert(all.take(it.index() + 1).drop_last() =~= all.take(it.index() as int));
                assert(all.take(it.index() + 1).last() == line@);
            }
            insert_line(&mut lines, line);
        }
        proof {
            assert(all.take(all.len() as int) =~= all);
        }
        Program { lines }
    }

    /// The number of lines. It also tells that the lines are in ascending
    /// order of their numbers, as they are in every program.
    pub fn len(&self) -> (r: usize)
        ensures
            r == self@.len(),
            ascending(self@),
    {
        proof {
            use_type_invariant(self);
        }
        self.lines.len()
    }

    /// The line that runs as the `index`-th, counted from 0.
    pub fn line(&self, index: usize) -> (r: &LineOfCode)
        requires
            index < self@.len(),
        ensures
            r@ == self@[index as int],
    {
        &self.lines[index]
    }

    /// The place in the order of the line with the number `number`, if the
    /// program has such a line.
    pub fn index_of(&self, number: u32) -> (r: Option<usize>)
        ensures
            match r {
                Some(i) => position(self@, number) == Some(i as int),
                None => position(self@, number) is None,
            },
    {
        proof {
            use_type_invariant(self);
            lemma_position_sound(self@, number);
        }
        let mut low: usize = 0;
        let mut high: usize = self.lines.len();
        while low < high
            invariant
                low <= high <= self.lines@.len(),
                ascending(self@),
                self@ == lines_view(self.lines@),
                forall|j: int| 0 <= j < low ==> self@[j].line_number < number,
                forall|j: int| high <= j < self@.len() ==> self@[j].line_number > number,
            decreases high - low,
        {
            let mid = low + (high - low) / 2;
            let found = self.lines[mid].line_number.0;
            if found == number {
                proof {
                    lemma_position_found(self@, mid as int);
                }
                return Some(mid);
            } else if found < number {
                low = mid + 1;
            } else {
                high = mid;
            }
        }
        None
    }
}

} // verus!
