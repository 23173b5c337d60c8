use vstd::prelude::*;
use vstd::array::*;

verus! {

broadcast use vstd::array::group_array_axioms;

/// Total number of checkers on a row of point counts.
pub open spec fn count_sum(s: Seq<u8>) -> int
    decreases s.len(),
{
    if s.len() == 0 {
        0
    } else {
        count_sum(s.drop_last()) + s.last()
    }
}

pub proof fn lemma_count_sum_bounds(s: Seq<u8>)
    ensures
        0 <= count_sum(s) <= 255 * s.len(),
    decreases s.len(),
{
    if s.len() > 0 {
        lemma_count_sum_bounds(s.drop_last());
    }
}

pub proof fn lemma_count_sum_element(s: Seq<u8>, i: int)
    requires
        0 <= i < s.len(),
    ensures
        s[i] <= count_sum(s),
    decreases s.len(),
{
    lemma_count_sum_bounds(s.drop_last());
    if i < s.len() - 1 {
        lemma_count_sum_element(s.drop_last(), i);
    }
}

pub proof fn lemma_count_sum_take_succ(s: Seq<u8>, i: int)
    requires
        0 <= i < s.len(),
    ensures
        count_sum(s.take(i + 1)) == count_sum(s.take(i)) + s[i],
{
    assert(s.take(i + 1).drop_last() =~= s.take(i));
    assert(s.take(i + 1).last() == s[i]);
}

pub proof fn lemma_count_sum_update(s: Seq<u8>, i: int, v: u8)
    requires
        0 <= i < s.len(),
    ensures
        count_sum(s.update(i, v)) == count_sum(s) - s[i] + v,
    decreases s.len(),
{
    let u = s.update(i, v);
    if i == s.len() - 1 {
        assert(u.drop_last() =~= s.drop_last());
        assert(u.last() == v);
    } else {
        assert(u.drop_last() =~= s.drop_last().update(i, v));
        assert(u.last() == s.last());
        lemma_count_sum_update(s.drop_last(), i, v);
    }
}

pub proof fn lemma_count_sum_first(s: Seq<u8>)
    requires
        s.len() > 0,
    ensures
        count_sum(s) == s[0] + count_sum(s.drop_first()),
    decreases s.len(),
{
    if s.len() == 1 {
        assert(s.drop_first() =~= Seq::<u8>::empty());
        assert(s.drop_last() =~= Seq::<u8>::empty());
        assert(s.last() == s[0]);
    } else {
        lemma_count_sum_first(s.drop_last());
        assert(s.drop_last().drop_first() =~= s.drop_first().drop_last());
        assert(s.drop_first().last() == s.last());
        assert(s.drop_last()[0] == s[0]);
    }
}

/// A row that mirrors another row pointwise holds the same number of checkers.
pub proof fn lemma_count_sum_mirror(a: Seq<u8>, b: Seq<u8>)
    requires
        a.len() == b.len(),
        forall|i: int| 0 <= i < b.len() ==> b[i] == a[a.len() - 1 - i],
    ensures
        count_sum(b) == count_sum(a),
    decreases a.len(),
{
    if a.len() > 0 {
        let a1 = a.drop_first();
        let b1 = b.drop_last();
        assert(forall|i: int| 0 <= i < b1.len() ==> b1[i] == a1[a1.len() - 1 - i]);
        lemma_count_sum_mirror(a1, b1);
        lemma_count_sum_first(a);
        assert(b.last() == a[0]);
    }
}

/// The two validity invariants of a board, stated over the raw rows:
/// no point is held by both sides, and each side's checkers
/// (points, bar, and borne off) total fifteen.
pub open spec fn rows_valid(
    o_row: Seq<u8>,
    x_row: Seq<u8>,
    o_bar: u8,
    x_bar: u8,
    o_home: u8,
    x_home: u8,
) -> bool {
    &&& o_row.len() == 24
    &&& x_row.len() == 24
    &&& (forall|i: int| 0 <= i < 24 ==> !(o_row[i] > 0 && x_row[i] > 0))
    &&& count_sum(o_row) + o_bar + o_home == 15
    &&& count_sum(x_row) + x_bar + x_home == 15
}

/// An immutable snapshot of a full board state for both sides.
/// Point counts are indexed 0..24; index `i` is point `i + 1` of the
/// mover's numbering.
#[derive(Clone, Copy, Debug)]
pub struct Position {
    pub o_points: [u8; 24],
    pub x_points: [u8; 24],
    pub o_bar: u8,
    pub x_bar: u8,
    pub o_home: u8,
    pub x_home: u8,
}

impl PartialEq for Position {
    fn eq(&self, other: &Position) -> (r: bool) {
        if self.o_bar != other.o_bar || self.x_bar != other.x_bar || self.o_home != other.o_home
            || self.x_home != other.x_home {
            return false;
        }
        let mut i: usize = 0;
        while i < 24
            invariant
                i <= 24,
                self.o_bar == other.o_bar,
                self.x_bar == other.x_bar,
                self.o_home == other.o_home,
                self.x_home == other.x_home,
                forall|j: int| 0 <= j < i ==> self.o_points[j] == other.o_points[j],
                forall|j: int| 0 <= j < i ==> self.x_points[j] == other.x_points[j],
            decreases 24 - i,
        {
            if self.o_points[i] != other.o_points[i] || self.x_points[i] != other.x_points[i] {
                return false;
            }
            i = i + 1;
        }
        proof {
            assert(self.o_points =~= other.o_points);
            assert(self.x_points =~= other.x_points);
        }
        true
    }
}

impl vstd::std_specs::cmp::PartialEqSpecImpl for Position {
    open spec fn obeys_eq_spec() -> bool {
        true
    }

    open spec fn eq_spec(&self, other: &Position) -> bool {
        *self == *other
    }
}

/// An empty row of 24 points.
pub open spec fn empty_row() -> Seq<u8> {
    Seq::new(24, |i: int| 0u8)
}

pub proof fn lemma_count_sum_zero(s: Seq<u8>)
    requires
        forall|i: int| 0 <= i < s.len() ==> s[i] == 0,
    ensures
        count_sum(s) == 0,
    decreases s.len(),
{
    if s.len() > 0 {
        lemma_count_sum_zero(s.drop_last());
    }
}

/// A sparse layout entry names a point (1-indexed) holding 1 to 15 checkers.
pub open spec fn valid_entry(e: (u8, u8)) -> bool {
    1 <= e.0 <= 24 && 1 <= e.1 <= 15
}

pub open spec fn entries_ok(entries: Seq<(u8, u8)>) -> bool {
    forall|k: int| 0 <= k < entries.len() ==> valid_entry(#[trigger] entries[k])
}

/// The row built by writing each sparse entry in order onto an empty row.
pub open spec fn placed_points(entries: Seq<(u8, u8)>) -> Seq<u8>
    decreases entries.len(),
{
    if entries.len() == 0 {
        empty_row()
    } else {
        placed_points(entries.drop_last()).update(
            entries.last().0 - 1,
            entries.last().1,
        )
    }
}

pub proof fn lemma_placed_points_len(entries: Seq<(u8, u8)>)
    requires
        entries_ok(entries),
    ensures
        placed_points(entries).len() == 24,
    decreases entries.len(),
{
    if entries.len() > 0 {
        assert(forall|k: int| 0 <= k < entries.len() - 1 ==> entries.drop_last()[k]
            == #[trigger] entries[k]);
        lemma_placed_points_len(entries.drop_last());
        assert(valid_entry(entries.last()));
    }
}

/// The standard opening row for the mover, indexed from the mover's side.
pub open spec fn initial_o_row() -> Seq<u8> {
    empty_row().update(5, 5u8).update(7, 3u8).update(12, 5u8).update(23, 2u8)
}

/// The standard opening row for the opponent.
pub open spec fn initial_x_row() -> Seq<u8> {
    empty_row().update(0, 2u8).update(11, 5u8).update(16, 3u8).update(18, 5u8)
}

pub open spec fn is_initial(p: Position) -> bool {
    &&& p.o_points@ == initial_o_row()
    &&& p.x_points@ == initial_x_row()
    &&& p.o_bar == 0
    &&& p.x_bar == 0
    &&& p.o_home == 0
    &&& p.x_home == 0
}

/// `q` is `p` with the two sides exchanged and the point numbering mirrored.
pub open spec fn is_flip_of(q: Position, p: Position) -> bool {
    &&& (forall|i: int| 0 <= i < 24 ==> q.o_points[i] == p.x_points[23 - i])
    &&& (forall|i: int| 0 <= i < 24 ==> q.x_points[i] == p.o_points[23 - i])
    &&& q.o_bar == p.x_bar
    &&& q.x_bar == p.o_bar
    &&& q.o_home == p.x_home
    &&& q.x_home == p.o_home
}

impl Position {
    pub open spec fn is_valid_spec(self) -> bool {
        rows_valid(self.o_points@, self.x_points@, self.o_bar, self.x_bar, self.o_home,
            self.x_home)
    }

    /// All fifteen of the mover's checkers are in its home board or borne off.
    pub open spec fn o_can_bear_off_spec(self) -> bool {
        self.o_home + self.o_points[0] + self.o_points[1] + self.o_points[2] + self.o_points[3]
            + self.o_points[4] + self.o_points[5] == 15
    }

    pub open spec fn o_has_won_spec(self) -> bool {
        self.o_home == 15
    }

    pub open spec fn x_has_won_spec(self) -> bool {
        self.x_home == 15
    }

    pub open spec fn o_has_gammoned_spec(self) -> bool {
        self.o_has_won_spec() && self.x_home == 0
    }

    pub open spec fn x_has_gammoned_spec(self) -> bool {
        self.x_has_won_spec() && self.o_home == 0
    }

    pub open spec fn o_has_backgammoned_spec(self) -> bool {
        self.o_has_gammoned_spec() && self.x_bar + self.x_points[0] + self.x_points[1]
            + self.x_points[2] + self.x_points[3] + self.x_points[4] + self.x_points[5] > 0
    }

    pub open spec fn x_has_backgammoned_spec(self) -> bool {
        self.x_has_gammoned_spec() && self.o_bar + self.o_points[23] + self.o_points[22]
            + self.o_points[21] + self.o_points[20] + self.o_points[19] + self.o_points[18] > 0
    }

    /// The board after one checker of the mover moves from `from` to `to`,
    /// sending a lone opposing checker on `to` to the bar.
    pub open spec fn o_move_result(self, from: int, to: int) -> Position {
        let hit = self.x_points[to] == 1;
        Position {
            o_points: spec_array_update(
                spec_array_update(self.o_points, to, (self.o_points[to] + 1) as u8),
                from,
                (self.o_points[from] - 1) as u8,
            ),
            x_points: if hit {
                spec_array_update(self.x_points, to, 0u8)
            } else {
                self.x_points
            },
            o_bar: self.o_bar,
            x_bar: if hit {
                (self.x_bar + 1) as u8
            } else {
                self.x_bar
            },
            o_home: self.o_home,
            x_home: self.x_home,
        }
    }

    /// The board after one checker of the mover enters from the bar onto `to`.
    pub open spec fn o_enter_result(self, to: int) -> Position {
        let hit = self.x_points[to] == 1;
        Position {
            o_points: spec_array_update(self.o_points, to, (self.o_points[to] + 1) as u8),
            x_points: if hit {
                spec_array_update(self.x_points, to, 0u8)
            } else {
                self.x_points
            },
            o_bar: (self.o_bar - 1) as u8,
            x_bar: if hit {
                (self.x_bar + 1) as u8
            } else {
                self.x_bar
            },
            o_home: self.o_home,
            x_home: self.x_home,
        }
    }

    /// The board after the mover bears one checker off from `from`.
    pub open spec fn o_bear_off_result(self, from: int) -> Position {
        Position {
            o_points: spec_array_update(self.o_points, from, (self.o_points[from] - 1) as u8),
            x_points: self.x_points,
            o_bar: self.o_bar,
            x_bar: self.x_bar,
            o_home: (self.o_home + 1) as u8,
            x_home: self.x_home,
        }
    }

    pub fn point_o_value(&self, point: u8) -> (r: u8)
        requires
            point < 24,
        ensures
            r == self.o_points[point as int],
    {
        self.o_points[point as usize]
    }

    pub fn point_x_value(&self, point: u8) -> (r: u8)
        requires
            point < 24,
        ensures
            r == self.x_points[point as int],
    {
        self.x_points[point as usize]
    }

    pub fn o_bar_value(&self) -> (r: u8)
        ensures
            r == self.o_bar,
    {
        self.o_bar
    }

    pub fn x_bar_value(&self) -> (r: u8)
        ensures
            r == self.x_bar,
    {
        self.x_bar
    }

    pub fn o_can_bear_off(&self) -> (r: bool)
        ensures
            r == self.o_can_bear_off_spec(),
    {
        self.o_home as u32 + self.o_points[0] as u32 + self.o_points[1] as u32
            + self.o_points[2] as u32 + self.o_points[3] as u32 + self.o_points[4] as u32
            + self.o_points[5] as u32 == 15
    }

    pub fn o_has_won(&self) -> (r: bool)
        ensures
            r == self.o_has_won_spec(),
    {
        self.o_home == 15
    }

    pub fn x_has_won(&self) -> (r: bool)
        ensures
            r == self.x_has_won_spec(),
    {
        self.x_home == 15
    }

    pub fn is_over(&self) -> (r: bool)
        ensures
            r == (self.o_has_won_spec() || self.x_has_won_spec()),
    {
        self.o_has_won() || self.x_has_won()
    }

    pub fn o_has_gammoned(&self) -> (r: bool)
        ensures
            r == self.o_has_gammoned_spec(),
    {
        self.o_has_won() && self.x_home == 0
    }

    pub fn x_has_gammoned(&self) -> (r: bool)
        ensures
            r == self.x_has_gammoned_spec(),
    {
        self.x_has_won() && self.o_home == 0
    }

    pub fn o_has_backgammoned(&self) -> (r: bool)
        ensures
            r == self.o_has_backgammoned_spec(),
    {
        self.o_has_gammoned() && self.x_bar as u32 + self.x_points[0] as u32
            + self.x_points[1] as u32 + self.x_points[2] as u32 + self.x_points[3] as u32
            + self.x_points[4] as u32 + self.x_points[5] as u32 > 0
    }

    pub fn x_has_backgammoned(&self) -> (r: bool)
        ensures
            r == self.x_has_backgammoned_spec(),
    {
        self.x_has_gammoned() && self.o_bar as u32 + self.o_points[23] as u32
            + self.o_points[22] as u32 + self.o_points[21] as u32 + self.o_points[20] as u32
            + self.o_points[19] as u32 + self.o_points[18] as u32 > 0
    }

    pub fn is_valid(&self) -> (r: bool)
        ensures
            r == self.is_valid_spec(),
    {
        let mut o_count: u32 = 0;
        let mut x_count: u32 = 0;
        let mut i: usize = 0;
        while i < 24
            invariant
                i <= 24,
                o_count == count_sum(self.o_points@.take(i as int)),
                x_count == count_sum(self.x_points@.take(i as int)),
                forall|j: int| 0 <= j < i ==> !(self.o_points[j] > 0 && self.x_points[j] > 0),
            decreases 24 - i,
        {
            if self.o_points[i] > 0 && self.x_points[i] > 0 {
                return false;
            }
            proof {
                lemma_count_sum_bounds(self.o_points@.take(i as int));
                lemma_count_sum_bounds(self.x_points@.take(i as int));
                lemma_count_sum_take_succ(self.o_points@, i as int);
                lemma_count_sum_take_succ(self.x_points@, i as int);
            }
            o_count = o_count + self.o_points[i] as u32;
            x_count = x_count + self.x_points[i] as u32;
            i = i + 1;
        }
        proof {
            assert(self.o_points@.take(24) =~= self.o_points@);
            assert(self.x_points@.take(24) =~= self.x_points@);
            lemma_count_sum_bounds(self.o_points@);
            lemma_count_sum_bounds(self.x_points@);
        }
        o_count + self.o_bar as u32 + self.o_home as u32 == 15 && x_count + self.x_bar as u32
            + self.x_home as u32 == 15
    }

    /// The standard 24-point starting layout.
    pub fn initial() -> (r: Position)
        ensures
            is_initial(r),
            r.is_valid_spec(),
    {
        let mut o_pts: [u8; 24] = [0; 24];
        o_pts[5] = 5;
        o_pts[7] = 3;
        o_pts[12] = 5;
        o_pts[23] = 2;
        let mut x_pts: [u8; 24] = [0; 24];
        x_pts[0] = 2;
        x_pts[11] = 5;
        x_pts[16] = 3;
        x_pts[18] = 5;
        let r = Position {
            o_points: o_pts,
            x_points: x_pts,
            o_bar: 0,
            x_bar: 0,
            o_home: 0,
            x_home: 0,
        };
        proof {
            assert(r.o_points@ =~= initial_o_row());
            assert(r.x_points@ =~= initial_x_row());
            lemma_initial_rows_valid();
        }
        r
    }

    /// Builds a position from sparse point layouts for both sides.
    /// Each entry `(pt, val)` puts `val` checkers on 1-indexed point `pt`;
    /// the finished board must satisfy the validity invariants.
    pub fn make(
        o_points: &[(u8, u8)],
        x_points: &[(u8, u8)],
        o_bar: u8,
        x_bar: u8,
        o_home: u8,
        x_home: u8,
    ) -> (r: Position)
        requires
            entries_ok(o_points@),
            entries_ok(x_points@),
            rows_valid(
                placed_points(o_points@),
                placed_points(x_points@),
                o_bar,
                x_bar,
                o_home,
                x_home,
            ),
        ensures
            r.o_points@ == placed_points(o_points@),
            r.x_points@ == placed_points(x_points@),
            r.o_bar == o_bar,
            r.x_bar == x_bar,
            r.o_home == o_home,
            r.x_home == x_home,
            r.is_valid_spec(),
    {
        let o_pts = place_entries(o_points);
        let x_pts = place_entries(x_points);
        let result = Position { o_points: o_pts, x_points: x_pts, o_bar, x_bar, o_home, x_home };
        if !result.is_valid() {
            // Construction fails fast on a board that breaks the invariants.
            return vstd::pervasive::unreached();
        }
        result
    }

    /// Returns a new position with one checker moved from point `from` to
    /// point `to`, hitting a lone opposing checker there.
    pub fn with_o_move(&self, from: u8, to: u8) -> (r: Position)
        requires
            self.is_valid_spec(),
            to < from,
            from < 24,
            self.o_points[from as int] >= 1,
            self.x_points[to as int] <= 1,
        ensures
            r == self.o_move_result(from as int, to as int),
            r.is_valid_spec(),
    {
        proof {
            lemma_count_sum_element(self.o_points@, to as int);
            lemma_count_sum_element(self.o_points@, from as int);
            lemma_count_sum_bounds(self.o_points@);
            lemma_count_sum_bounds(self.x_points@);
        }
        let hits = self.x_points[to as usize] == 1;

        let mut new_o_points = self.o_points;
        new_o_points[to as usize] = self.o_points[to as usize] + 1;
        new_o_points[from as usize] = self.o_points[from as usize] - 1;

        let mut new_x_points = self.x_points;
        if hits {
            new_x_points[to as usize] = 0;
        }

        let r = Position {
            o_points: new_o_points,
            x_points: new_x_points,
            o_bar: self.o_bar,
            x_bar: if hits {
                self.x_bar + 1
            } else {
                self.x_bar
            },
            o_home: self.o_home,
            x_home: self.x_home,
        };
        proof {
            let s = *self;
            let f = from as int;
            let t = to as int;
            assert(r.o_points =~= s.o_move_result(f, t).o_points);
            assert(r.x_points =~= s.o_move_result(f, t).x_points);
            lemma_o_move_result_valid(s, f, t);
        }
        r
    }

    /// Returns a new position with one checker entered from the bar onto
    /// point `to`, hitting a lone opposing checker there.
    pub fn with_o_entering(&self, to: u8) -> (r: Position)
        requires
            self.is_valid_spec(),
            to < 24,
            self.o_bar >= 1,
            self.x_points[to as int] <= 1,
        ensures
            r == self.o_enter_result(to as int),
            r.is_valid_spec(),
    {
        proof {
            lemma_count_sum_element(self.o_points@, to as int);
            lemma_count_sum_bounds(self.o_points@);
            lemma_count_sum_bounds(self.x_points@);
        }
        let hits = self.x_points[to as usize] == 1;

        let mut new_o_points = self.o_points;
        new_o_points[to as usize] = self.o_points[to as usize] + 1;

        let mut new_x_points = self.x_points;
        if hits {
            new_x_points[to as usize] = 0;
        }

        let r = Position {
            o_points: new_o_points,
            x_points: new_x_points,
            o_bar: self.o_bar - 1,
            x_bar: if hits {
                self.x_bar + 1
            } else {
                self.x_bar
            },
            o_home: self.o_home,
            x_home: self.x_home,
        };
        proof {
            let s = *self;
            let t = to as int;
            assert(r.o_points =~= s.o_enter_result(t).o_points);
            assert(r.x_points =~= s.o_enter_result(t).x_points);
            lemma_o_enter_result_valid(s, t);
        }
        r
    }

    /// Returns a new position with one checker borne off from point `from`.
    pub fn with_o_bearing_off(&self, from: u8) -> (r: Position)
        requires
            self.is_valid_spec(),
            self.o_can_bear_off_spec(),
            from < 24,
            self.o_points[from as int] >= 1,
        ensures
            r == self.o_bear_off_result(from as int),
            r.is_valid_spec(),
    {
        proof {
            lemma_count_sum_bounds(self.o_points@);
        }
        let mut new_o_points = self.o_points;
        new_o_points[from as usize] = self.o_points[from as usize] - 1;

        let r = Position {
            o_points: new_o_points,
            x_points: self.x_points,
            o_bar: self.o_bar,
            x_bar: self.x_bar,
            o_home: self.o_home + 1,
            x_home: self.x_home,
        };
        proof {
            let s = *self;
            let f = from as int;
            assert(r.o_points =~= s.o_bear_off_result(f).o_points);
            lemma_o_bear_off_result_valid(s, f);
        }
        r
    }

    /// The position obtained by exchanging the two sides and mirroring
    /// the point numbering.
    pub fn flip(&self) -> (r: Position)
        ensures
            is_flip_of(r, *self),
            self.is_valid_spec() ==> r.is_valid_spec(),
    {
        let mut new_o_points: [u8; 24] = [0; 24];
        let mut new_x_points: [u8; 24] = [0; 24];
        let mut i: usize = 0;
        while i < 24
            invariant
                i <= 24,
                forall|j: int| 0 <= j < i ==> new_o_points[j] == self.x_points[23 - j],
                forall|j: int| 0 <= j < i ==> new_x_points[j] == self.o_points[23 - j],
            decreases 24 - i,
        {
            new_o_points[i] = self.x_points[23 - i];
            new_x_points[i] = self.o_points[23 - i];
            i = i + 1;
        }
        let r = Position {
            o_points: new_o_points,
            x_points: new_x_points,
            o_bar: self.x_bar,
            x_bar: self.o_bar,
            o_home: self.x_home,
            x_home: self.o_home,
        };
        proof {
            if self.is_valid_spec() {
                lemma_flip_valid(*self, r);
            }
        }
        r
    }
}

/// Moving a checker from `from` to `to` preserves the board invariants.
pub proof fn lemma_o_move_result_valid(p: Position, from: int, to: int)
    requires
        p.is_valid_spec(),
        0 <= to < from < 24,
        p.o_points[from] >= 1,
        p.x_points[to] <= 1,
    ensures
        p.o_move_result(from, to).is_valid_spec(),
{
    lemma_count_sum_element(p.o_points@, to);
    lemma_count_sum_element(p.o_points@, from);
    lemma_count_sum_bounds(p.o_points@);
    lemma_count_sum_bounds(p.x_points@);
    lemma_count_sum_update(p.o_points@, to, (p.o_points[to] + 1) as u8);
    lemma_count_sum_update(
        p.o_points@.update(to, (p.o_points[to] + 1) as u8),
        from,
        (p.o_points[from] - 1) as u8,
    );
    if p.x_points[to] == 1 {
        lemma_count_sum_update(p.x_points@, to, 0u8);
    }
}

/// Entering a checker from the bar onto `to` preserves the board
/// invariants.
pub proof fn lemma_o_enter_result_valid(p: Position, to: int)
    requires
        p.is_valid_spec(),
        0 <= to < 24,
        p.o_bar >= 1,
        p.x_points[to] <= 1,
    ensures
        p.o_enter_result(to).is_valid_spec(),
{
    lemma_count_sum_element(p.o_points@, to);
    lemma_count_sum_bounds(p.o_points@);
    lemma_count_sum_bounds(p.x_points@);
    lemma_count_sum_update(p.o_points@, to, (p.o_points[to] + 1) as u8);
    if p.x_points[to] == 1 {
        lemma_count_sum_update(p.x_points@, to, 0u8);
    }
}

/// Bearing a checker off `from` preserves the board invariants.
pub proof fn lemma_o_bear_off_result_valid(p: Position, from: int)
    requires
        p.is_valid_spec(),
        p.o_can_bear_off_spec(),
        0 <= from < 24,
        p.o_points[from] >= 1,
    ensures
        p.o_bear_off_result(from).is_valid_spec(),
{
    lemma_count_sum_bounds(p.o_points@);
    lemma_count_sum_bounds(p.x_points@);
    lemma_count_sum_update(p.o_points@, from, (p.o_points[from] - 1) as u8);
}

/// Writes each sparse entry in order onto an empty row.
fn place_entries(entries: &[(u8, u8)]) -> (r: [u8; 24])
    requires
        entries_ok(entries@),
    ensures
        r@ == placed_points(entries@),
{
    let mut pts: [u8; 24] = [0; 24];
    proof {
        assert(entries@.take(0) =~= Seq::<(u8, u8)>::empty());
        assert(pts@ =~= placed_points(entries@.take(0)));
    }
    let mut i: usize = 0;
    while i < entries.len()
        invariant
            i <= entries@.len(),
            entries_ok(entries@),
            pts@ == placed_points(entries@.take(i as int)),
        decreases entries@.len() - i,
    {
        let (pt, val) = entries[i];
        proof {
            assert(valid_entry(entries@[i as int]));
            lemma_placed_points_len(entries@.take(i as int));
        }
        pts[(pt - 1) as usize] = val;
        proof {
            let j = i as int;
            assert(entries@.take(j + 1).drop_last() =~= entries@.take(j));
            assert(entries@.take(j + 1).last() == entries@[j]);
        }
        i = i + 1;
    }
    proof {
        assert(entries@.take(entries@.len() as int) =~= entries@);
    }
    pts
}

/// The opening rows hold fifteen checkers each and do not overlap.
pub proof fn lemma_initial_rows_valid()
    ensures
        rows_valid(initial_o_row(), initial_x_row(), 0, 0, 0, 0),
{
    lemma_count_sum_zero(empty_row());
    lemma_count_sum_update(empty_row(), 5, 5u8);
    lemma_count_sum_update(empty_row().update(5, 5u8), 7, 3u8);
    lemma_count_sum_update(empty_row().update(5, 5u8).update(7, 3u8), 12, 5u8);
    lemma_count_sum_update(empty_row().update(5, 5u8).update(7, 3u8).update(12, 5u8), 23, 2u8);
    lemma_count_sum_update(empty_row(), 0, 2u8);
    lemma_count_sum_update(empty_row().update(0, 2u8), 11, 5u8);
    lemma_count_sum_update(empty_row().update(0, 2u8).update(11, 5u8), 16, 3u8);
    lemma_count_sum_update(empty_row().update(0, 2u8).update(11, 5u8).update(16, 3u8), 18, 5u8);
}

/// Flipping a valid position yields a valid position.
pub proof fn lemma_flip_valid(p: Position, q: Position)
    requires
        is_flip_of(q, p),
        p.is_valid_spec(),
    ensures
        q.is_valid_spec(),
{
    lemma_count_sum_mirror(p.x_points@, q.o_points@);
    lemma_count_sum_mirror(p.o_points@, q.x_points@);
    assert forall|i: int| 0 <= i < 24 implies !(q.o_points[i] > 0 && q.x_points[i] > 0) by {
        assert(!(p.o_points[23 - i] > 0 && p.x_points[23 - i] > 0));
    }
}

/// Being each other's flip is symmetric.
pub proof fn lemma_flip_symmetric(q: Position, p: Position)
    requires
        is_flip_of(q, p),
    ensures
        is_flip_of(p, q),
{
    assert forall|i: int| 0 <= i < 24 implies p.o_points[i] == q.x_points[23 - i] by {
        assert(q.x_points[23 - i] == p.o_points[23 - (23 - i)]);
    }
    assert forall|i: int| 0 <= i < 24 implies p.x_points[i] == q.o_points[23 - i] by {
        assert(q.o_points[23 - i] == p.x_points[23 - (23 - i)]);
    }
}

/// A position has exactly one flip.
pub proof fn lemma_flip_unique(a: Position, b: Position, p: Position)
    requires
        is_flip_of(a, p),
        is_flip_of(b, p),
    ensures
        a == b,
{
    assert(a.o_points =~= b.o_points);
    assert(a.x_points =~= b.x_points);
}

/// Flipping is an involution: flipping twice restores the position.
pub proof fn lemma_flip_involution(p: Position, q: Position, r: Position)
    requires
        is_flip_of(q, p),
        is_flip_of(r, q),
    ensures
        r == p,
{
    assert(r.o_points =~= p.o_points);
    assert(r.x_points =~= p.x_points);
}

/// The initial position is a fixed point of flipping.
pub proof fn lemma_flip_initial(p: Position, q: Position)
    requires
        is_initial(p),
        is_flip_of(q, p),
    ensures
        q == p,
{
    assert(q.o_points =~= p.o_points);
    assert(q.x_points =~= p.x_points);
}

} // verus!
