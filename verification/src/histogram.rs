//! The refusal histogram: every refusal over a set of parts mapped to the
//! named cycle it blocks, counted as *cycle → parts blocked*.
//!
//! The counts are kept in maps whose entries stand in key order, so the
//! same additions in any order leave the same histogram, and
//! [`Histogram::markdown`] prints it the same byte for byte.

use vstd::prelude::*;

use crate::ops::{OpFailure, ReadRefusal, Reason};
use crate::text::{contains, contains_text};
use crate::sorted::{Ordered, canon, count_of, count_up, entries_view, lemma_canon,
    lemma_insert, lemma_insert_by, lemma_map_of, lemma_sum_bounds,
    lemma_update, locate, map_of, set_insert, sort_by, strictly_sorted, sum_counts};
use crate::text::{Order, chars_of, compare_chars, decimal, lemma_seq_before_irreflexive,
    lemma_seq_before_total, lemma_seq_before_transitive, push_chars, push_decimal, push_str,
    seq_before, string_of};

verus! {

/// Where a part is refused: the reader, or a stage of the battery, in the
/// order they run.
#[derive(Debug, Clone, Copy, PartialEq, Eq, PartialOrd, Ord, Hash, Structural)]
pub enum Stage {
    /// The file read.
    Read,
    /// A solid read, tessellated and measured.
    Measure,
    /// Written and read back.
    WriteRead,
    /// Cut by the box.
    BoxCut,
    /// Drilled along the first principal axis.
    DrillX,
    /// Along the second.
    DrillY,
    /// Along the third.
    DrillZ,
    /// A sample of its edges filleted.
    Fillet,
}

impl View for Stage {
    type V = Stage;

    open spec fn view(&self) -> Stage {
        *self
    }
}

/// The number of stages.
pub const STAGE_COUNT: usize = 8;

impl Stage {
    /// Its place in the order the stages run, from 0.
    pub open spec fn index(self) -> nat {
        match self {
            Stage::Read => 0,
            Stage::Measure => 1,
            Stage::WriteRead => 2,
            Stage::BoxCut => 3,
            Stage::DrillX => 4,
            Stage::DrillY => 5,
            Stage::DrillZ => 6,
            Stage::Fillet => 7,
        }
    }

    /// The stage at place `i` of the order.
    pub open spec fn spec_at(i: nat) -> Stage {
        if i == 0 {
            Stage::Read
        } else if i == 1 {
            Stage::Measure
        } else if i == 2 {
            Stage::WriteRead
        } else if i == 3 {
            Stage::BoxCut
        } else if i == 4 {
            Stage::DrillX
        } else if i == 5 {
            Stage::DrillY
        } else if i == 6 {
            Stage::DrillZ
        } else {
            Stage::Fillet
        }
    }

    /// The stage at place `i` of the order.
    pub fn at(i: usize) -> (s: Stage)
        requires
            i < STAGE_COUNT,
        ensures
            s == Stage::spec_at(i as nat),
            s.index() == i,
    {
        match i {
            0 => Stage::Read,
            1 => Stage::Measure,
            2 => Stage::WriteRead,
            3 => Stage::BoxCut,
            4 => Stage::DrillX,
            5 => Stage::DrillY,
            6 => Stage::DrillZ,
            _ => Stage::Fillet,
        }
    }

    /// Its name, as a fixture records it and a histogram prints it.
    pub open spec fn spec_name(self) -> Seq<char> {
        match self {
            Stage::Read => "read"@,
            Stage::Measure => "measure"@,
            Stage::WriteRead => "write_read"@,
            Stage::BoxCut => "box_cut"@,
            Stage::DrillX => "drill_x"@,
            Stage::DrillY => "drill_y"@,
            Stage::DrillZ => "drill_z"@,
            Stage::Fillet => "fillet"@,
        }
    }

    /// Its name, as a fixture records it and a histogram prints it.
    pub fn name(self) -> (s: &'static str)
        ensures
            s@ == self.spec_name(),
    {
        match self {
            Stage::Read => "read",
            Stage::Measure => "measure",
            Stage::WriteRead => "write_read",
            Stage::BoxCut => "box_cut",
            Stage::DrillX => "drill_x",
            Stage::DrillY => "drill_y",
            Stage::DrillZ => "drill_z",
            Stage::Fillet => "fillet",
        }
    }

    /// The first stage in order whose name is `name`.
    pub open spec fn spec_of_name(name: Seq<char>) -> Option<Stage> {
        if name == "read"@ {
            Some(Stage::Read)
        } else if name == "measure"@ {
            Some(Stage::Measure)
        } else if name == "write_read"@ {
            Some(Stage::WriteRead)
        } else if name == "box_cut"@ {
            Some(Stage::BoxCut)
        } else if name == "drill_x"@ {
            Some(Stage::DrillX)
        } else if name == "drill_y"@ {
            Some(Stage::DrillY)
        } else if name == "drill_z"@ {
            Some(Stage::DrillZ)
        } else if name == "fillet"@ {
            Some(Stage::Fillet)
        } else {
            None
        }
    }

    /// The stage of a name, if it is one.
    pub fn of_name(name: &str) -> (r: Option<Stage>)
        ensures
            r == Stage::spec_of_name(name@),
    {
        let n = chars_of(name);
        let mut i: usize = 0;
        while i < STAGE_COUNT
            invariant
                i <= STAGE_COUNT,
                n@ == name@,
                forall|j: nat| j < i ==> name@ != (#[trigger] Stage::spec_at(j)).spec_name(),
            decreases STAGE_COUNT - i,
        {
            let s = Stage::at(i);
            let m = chars_of(s.name());
            if compare_chars(n.as_slice(), m.as_slice()) == Order::Equal {
                proof {
                    if i > 0 { assert(name@ != Stage::spec_at(0).spec_name()); }
                    if i > 1 { assert(name@ != Stage::spec_at(1).spec_name()); }
                    if i > 2 { assert(name@ != Stage::spec_at(2).spec_name()); }
                    if i > 3 { assert(name@ != Stage::spec_at(3).spec_name()); }
                    if i > 4 { assert(name@ != Stage::spec_at(4).spec_name()); }
                    if i > 5 { assert(name@ != Stage::spec_at(5).spec_name()); }
                    if i > 6 { assert(name@ != Stage::spec_at(6).spec_name()); }
                }
                return Some(s);
            }
            i = i + 1;
        }
        assert(name@ != Stage::spec_at(0).spec_name());
        assert(name@ != Stage::spec_at(1).spec_name());
        assert(name@ != Stage::spec_at(2).spec_name());
        assert(name@ != Stage::spec_at(3).spec_name());
        assert(name@ != Stage::spec_at(4).spec_name());
        assert(name@ != Stage::spec_at(5).spec_name());
        assert(name@ != Stage::spec_at(6).spec_name());
        assert(name@ != Stage::spec_at(7).spec_name());
        None
    }
}

} // verus!

verus! {

/// A cycle a refusal blocks: one of the roadmap's named cycles, or the
/// refusal counted as itself where no named cycle removes it.
#[derive(Debug, Clone, Copy, PartialEq, Eq, PartialOrd, Ord, Hash)]
pub enum Cycle {
    /// The healing cycle: sewing, repair, sheet and wire bodies.
    Healing,
    /// The NURBS cycle: NURBS–NURBS intersection, NURBS operands in
    /// booleans.
    Nurbs,
    /// The blend-network cycle: chains, vertex blends, the pairs outside
    /// the blend table.
    BlendNetwork,
    /// The sweep cycle: paths, lofts, shells, offsets.
    Sweep,
    /// Counted as itself, under this name.
    Itself(&'static str),
}

impl Cycle {
    /// How it prints.
    pub open spec fn spec_name(self) -> Seq<char> {
        match self {
            Cycle::Healing => "healing"@,
            Cycle::Nurbs => "NURBS"@,
            Cycle::BlendNetwork => "blend network"@,
            Cycle::Sweep => "sweep"@,
            Cycle::Itself(name) => "itself: "@ + name@,
        }
    }

    /// How it prints: `healing`, `NURBS`, `blend network`, `sweep`, or
    /// `itself: <name>`.
    pub fn name(&self) -> (s: String)
        ensures
            s@ == self.spec_name(),
    {
        match self {
            Cycle::Healing => String::from_str("healing"),
            Cycle::Nurbs => String::from_str("NURBS"),
            Cycle::BlendNetwork => String::from_str("blend network"),
            Cycle::Sweep => String::from_str("sweep"),
            Cycle::Itself(name) => String::from_str("itself: ").concat(name),
        }
    }

    /// The named cycles, in the order a histogram prints them at equal
    /// counts.
    pub fn named() -> (v: Vec<Cycle>)
        ensures
            v@ == seq![Cycle::Healing, Cycle::Nurbs, Cycle::BlendNetwork, Cycle::Sweep],
    {
        vec![Cycle::Healing, Cycle::Nurbs, Cycle::BlendNetwork, Cycle::Sweep]
    }
}

/// The printed names of the named cycles, in their order.
pub open spec fn named_cycles() -> Seq<Seq<char>> {
    seq!["healing"@, "NURBS"@, "blend network"@, "sweep"@]
}

/// A pair of texts, in the order of the first and then of the second.
impl Ordered for (Vec<char>, Vec<char>) {
    open spec fn before(a: (Seq<char>, Seq<char>), b: (Seq<char>, Seq<char>)) -> bool {
        seq_before(a.0, b.0) || (a.0 == b.0 && seq_before(a.1, b.1))
    }

    proof fn lemma_irreflexive(a: (Seq<char>, Seq<char>)) {
        lemma_seq_before_irreflexive(a.0);
        lemma_seq_before_irreflexive(a.1);
    }

    proof fn lemma_transitive(a: (Seq<char>, Seq<char>), b: (Seq<char>, Seq<char>), c: (Seq<char>, Seq<char>)) {
        if seq_before(a.0, b.0) && seq_before(b.0, c.0) {
            lemma_seq_before_transitive(a.0, b.0, c.0);
        }
        if seq_before(a.1, b.1) && seq_before(b.1, c.1) {
            lemma_seq_before_transitive(a.1, b.1, c.1);
        }
    }

    proof fn lemma_total(a: (Seq<char>, Seq<char>), b: (Seq<char>, Seq<char>)) {
        lemma_seq_before_total(a.0, b.0);
        lemma_seq_before_total(a.1, b.1);
    }

    fn compare(&self, other: &Self) -> (o: Order) {
        match compare_chars(self.0.as_slice(), other.0.as_slice()) {
            Order::Equal => compare_chars(self.1.as_slice(), other.1.as_slice()),
            o => {
                proof {
                    lemma_seq_before_irreflexive(self.0@);
                    lemma_seq_before_irreflexive(other.0@);
                    if seq_before(self.0@, other.0@) && seq_before(other.0@, self.0@) {
                        lemma_seq_before_transitive(self.0@, other.0@, self.0@);
                    }
                }
                o
            },
        }
    }

    fn duplicate(&self) -> (c: Self) {
        (self.0.clone(), self.1.clone())
    }
}

/// A refusal's key: its cycle, its stage, its name, in that order.
impl Ordered for (Vec<char>, Stage, Vec<char>) {
    open spec fn before(a: (Seq<char>, Stage, Seq<char>), b: (Seq<char>, Stage, Seq<char>)) -> bool {
        ||| seq_before(a.0, b.0)
        ||| a.0 == b.0 && a.1.index() < b.1.index()
        ||| a.0 == b.0 && a.1 == b.1 && seq_before(a.2, b.2)
    }

    proof fn lemma_irreflexive(a: (Seq<char>, Stage, Seq<char>)) {
        lemma_seq_before_irreflexive(a.0);
        lemma_seq_before_irreflexive(a.2);
    }

    proof fn lemma_transitive(a: (Seq<char>, Stage, Seq<char>), b: (Seq<char>, Stage, Seq<char>), c: (Seq<char>, Stage, Seq<char>)) {
        if seq_before(a.0, b.0) && seq_before(b.0, c.0) {
            lemma_seq_before_transitive(a.0, b.0, c.0);
        }
        if seq_before(a.2, b.2) && seq_before(b.2, c.2) {
            lemma_seq_before_transitive(a.2, b.2, c.2);
        }
    }

    proof fn lemma_total(a: (Seq<char>, Stage, Seq<char>), b: (Seq<char>, Stage, Seq<char>)) {
        lemma_seq_before_total(a.0, b.0);
        lemma_seq_before_total(a.2, b.2);
    }

    fn compare(&self, other: &Self) -> (o: Order) {
        proof {
            lemma_seq_before_irreflexive(self.0@);
            lemma_seq_before_irreflexive(other.0@);
            if seq_before(self.0@, other.0@) && seq_before(other.0@, self.0@) {
                lemma_seq_before_transitive(self.0@, other.0@, self.0@);
            }
        }
        match compare_chars(self.0.as_slice(), other.0.as_slice()) {
            Order::Equal => {
                let (x, y) = (stage_index(self.1), stage_index(other.1));
                if x < y {
                    Order::Less
                } else if y < x {
                    Order::Greater
                } else {
                    assert(self.1 == other.1);
                    compare_chars(self.2.as_slice(), other.2.as_slice())
                }
            },
            o => o,
        }
    }

    fn duplicate(&self) -> (c: Self) {
        (self.0.clone(), self.1, self.2.clone())
    }
}

/// [`Stage::index`], computed.
pub fn stage_index(s: Stage) -> (i: usize)
    ensures
        i == s.index(),
        i < STAGE_COUNT,
{
    match s {
        Stage::Read => 0,
        Stage::Measure => 1,
        Stage::WriteRead => 2,
        Stage::BoxCut => 3,
        Stage::DrillX => 4,
        Stage::DrillY => 5,
        Stage::DrillZ => 6,
        Stage::Fillet => 7,
    }
}

} // verus!

verus! {

/// What a histogram holds: every part added; the solid instances read
/// and refused; the battery stages by class; per cycle and part, the
/// first stage the cycle blocks the part at; and each refusal, by cycle,
/// stage and name, with how many times it came.
pub struct HistogramView {
    /// Every part added.
    pub parts: Set<Seq<char>>,
    /// Solid instances read.
    pub read: nat,
    /// Solid instances refused.
    pub refused: nat,
    /// Battery stages by class.
    pub classes: Map<Seq<char>, usize>,
    /// `(cycle, part)` to the first stage the cycle blocks the part at.
    pub blocked: Map<(Seq<char>, Seq<char>), Stage>,
    /// `(cycle, stage, name)` to how many times that refusal came.
    pub refusals: Map<(Seq<char>, Stage, Seq<char>), usize>,
}

/// The earlier of two stages.
pub open spec fn first_of(a: Stage, b: Stage) -> Stage {
    if a.index() <= b.index() {
        a
    } else {
        b
    }
}

/// `v` with `part` added.
pub open spec fn with_part(v: HistogramView, part: Seq<char>) -> HistogramView {
    HistogramView { parts: v.parts.insert(part), ..v }
}

/// `v` with a solid of `part` read.
pub open spec fn with_read(v: HistogramView, part: Seq<char>) -> HistogramView {
    HistogramView { read: v.read + 1, ..with_part(v, part) }
}

/// `v` with a battery stage of `part` at `class`.
pub open spec fn with_class(v: HistogramView, part: Seq<char>, class: Seq<char>) -> HistogramView {
    HistogramView {
        classes: v.classes.insert(class, (count_of(v.classes, class) + 1) as usize),
        ..with_part(v, part)
    }
}

/// `v` with one refusal of `part` at `stage`, named `name`, blocking
/// `cycle`.
pub open spec fn with_refusal(
    v: HistogramView,
    part: Seq<char>,
    stage: Stage,
    name: Seq<char>,
    cycle: Seq<char>,
) -> HistogramView {
    let w = with_part(v, part);
    HistogramView {
        refused: if stage == Stage::Read { w.refused + 1 } else { w.refused },
        blocked: w.blocked.insert(
            (cycle, part),
            if w.blocked.contains_key((cycle, part)) {
                first_of(w.blocked[(cycle, part)], stage)
            } else {
                stage
            },
        ),
        refusals: w.refusals.insert(
            (cycle, stage, name),
            (count_of(w.refusals, (cycle, stage, name)) + 1) as usize,
        ),
        ..w
    }
}

/// The refusals over a set of parts, counted.
///
/// Guarantees: deterministic — the same parts added in any order print
/// the same text, byte for byte.
#[derive(Debug, Clone)]
pub struct Histogram {
    parts: Vec<(Vec<char>, ())>,
    read: usize,
    refused: usize,
    stages: usize,
    counted: usize,
    classes: Vec<(Vec<char>, usize)>,
    blocked: Vec<((Vec<char>, Vec<char>), Stage)>,
    refusals: Vec<((Vec<char>, Stage, Vec<char>), usize)>,
}

impl View for Histogram {
    type V = HistogramView;

    closed spec fn view(&self) -> HistogramView {
        HistogramView {
            parts: map_of(entries_view(self.parts@)).dom(),
            read: self.read as nat,
            refused: self.refused as nat,
            classes: map_of(entries_view(self.classes@)),
            blocked: map_of(entries_view(self.blocked@)),
            refusals: map_of(entries_view(self.refusals@)),
        }
    }
}

impl Histogram {
    /// Its maps are in key order and its totals add up.
    pub closed spec fn wf(&self) -> bool {
        &&& strictly_sorted::<Vec<char>, ()>(entries_view(self.parts@))
        &&& strictly_sorted::<Vec<char>, usize>(entries_view(self.classes@))
        &&& strictly_sorted::<(Vec<char>, Vec<char>), Stage>(entries_view(self.blocked@))
        &&& strictly_sorted::<(Vec<char>, Stage, Vec<char>), usize>(entries_view(self.refusals@))
        &&& self.read + self.refused <= usize::MAX
        &&& self.stages == sum_counts(entries_view(self.classes@))
        &&& forall|k| #[trigger] map_of(entries_view(self.refusals@)).contains_key(k)
            ==> map_of(entries_view(self.refusals@))[k] <= self.counted
    }

    /// Room for one more of every count: what each `add_` needs, which
    /// only some `usize::MAX` additions use up.
    pub closed spec fn has_room_spec(&self) -> bool {
        &&& self.read + self.refused < usize::MAX
        &&& self.stages < usize::MAX
        &&& self.counted < usize::MAX
    }

    /// Its running totals: solids read and refused, battery stages,
    /// refusals counted.
    pub closed spec fn tally(&self) -> (int, int, int) {
        ((self.read + self.refused) as int, self.stages as int, self.counted as int)
    }

    /// [`Histogram::has_room_spec`], computed.
    pub fn has_room(&self) -> (r: bool)
        ensures
            r == self.has_room_spec(),
    {
        self.refused < usize::MAX - self.read && self.stages < usize::MAX && self.counted
            < usize::MAX
    }

    /// An empty histogram.
    pub fn new() -> (h: Histogram)
        ensures
            h.wf(),
            h.has_room_spec(),
            h.tally() == (0int, 0int, 0int),
            h@ == empty_view(),
            h@.parts == Set::<Seq<char>>::empty(),
            h@.read == 0,
            h@.refused == 0,
            h@.classes == Map::<Seq<char>, usize>::empty(),
            h@.blocked == Map::<(Seq<char>, Seq<char>), Stage>::empty(),
            h@.refusals == Map::<(Seq<char>, Stage, Seq<char>), usize>::empty(),
    {
        let h = Histogram {
            parts: Vec::new(),
            read: 0,
            refused: 0,
            stages: 0,
            counted: 0,
            classes: Vec::new(),
            blocked: Vec::new(),
            refusals: Vec::new(),
        };
        assert(entries_view(h.parts@) =~= Seq::empty());
        assert(entries_view(h.classes@) =~= Seq::empty());
        assert(entries_view(h.blocked@) =~= Seq::empty());
        assert(entries_view(h.refusals@) =~= Seq::empty());
        assert(h@.parts =~= Set::<Seq<char>>::empty());
        h
    }

    /// Counts `part`, whether or not anything refuses it.
    pub fn add(&mut self, part: &str)
        requires
            old(self).wf(),
        ensures
            final(self).wf(),
            final(self).has_room_spec() == old(self).has_room_spec(),
            final(self).tally() == old(self).tally(),
            final(self)@ == with_part(old(self)@, part@),
            final(self)@ == apply(old(self)@, Addition::Part(part@)),
    {
        let p = chars_of(part);
        set_insert(&mut self.parts, p);
        assert(self@.parts =~= old(self)@.parts.insert(part@));
    }

    /// Counts a solid instance of `part` read.
    pub fn add_read(&mut self, part: &str)
        requires
            old(self).wf(),
            old(self).tally().0 < usize::MAX,
        ensures
            final(self).wf(),
            final(self).tally() == (old(self).tally().0 + 1, old(self).tally().1, old(self).tally().2),
            final(self)@ == with_read(old(self)@, part@),
            final(self)@ == apply(old(self)@, Addition::Read(part@)),
    {
        self.add(part);
        self.read = self.read + 1;
    }

    /// Counts a battery stage of `part` at `class`: `agree`,
    /// `both-refuse`, `oracle-refuses` or `arris-refuses`.
    pub fn add_class(&mut self, part: &str, class: &str)
        requires
            old(self).wf(),
            old(self).tally().1 < usize::MAX,
        ensures
            final(self).wf(),
            final(self).tally() == (old(self).tally().0, old(self).tally().1 + 1, old(self).tally().2),
            final(self)@ == with_class(old(self)@, part@, class@),
            final(self)@ == apply(old(self)@, Addition::Class(part@, class@)),
            class_count(final(self)@, class@) == class_count(old(self)@, class@) + 1,
    {
        self.add(part);
        let c = chars_of(class);
        proof {
            let s = entries_view(self.classes@);
            lemma_map_of::<Vec<char>, usize>(s);
            if map_of(s).contains_key(c@) {
                let i = choose|i: int| 0 <= i < s.len() && s[i].0 == c@;
                lemma_sum_bounds(s, i);
                assert(map_of(s)[s[i].0] == s[i].1);
            }
        }
        count_up(&mut self.classes, c);
        self.stages = self.stages + 1;
    }

    /// Counts one refusal of `part` at `stage`, named `name` — the
    /// reader's refusal kind, or the operation's error as the
    /// differential names it — as blocking `cycle`. A refusal at
    /// [`Stage::Read`] is a solid refused.
    pub fn add_refusal(&mut self, part: &str, stage: Stage, name: &str, cycle: &str)
        requires
            old(self).wf(),
            stage == Stage::Read ==> old(self).tally().0 < usize::MAX,
            old(self).tally().2 < usize::MAX,
        ensures
            final(self).wf(),
            final(self).tally() == (
                old(self).tally().0 + if stage == Stage::Read { 1int } else { 0int },
                old(self).tally().1,
                old(self).tally().2 + 1,
            ),
            final(self)@ == with_refusal(old(self)@, part@, stage, name@, cycle@),
            final(self)@ == apply(old(self)@, Addition::Refusal(part@, stage, name@, cycle@)),
    {
        self.add(part);
        if stage == Stage::Read {
            self.refused = self.refused + 1;
        }
        let key = (chars_of(cycle), chars_of(part));
        self.block(key, stage);
        let key = (chars_of(cycle), stage, chars_of(name));
        count_up(&mut self.refusals, key);
        self.counted = self.counted + 1;
    }

    /// Records that `key`'s cycle blocks its part at `stage`, keeping the
    /// first stage it does.
    fn block(&mut self, key: (Vec<char>, Vec<char>), stage: Stage)
        requires
            strictly_sorted::<(Vec<char>, Vec<char>), Stage>(entries_view(old(self).blocked@)),
        ensures
            strictly_sorted::<(Vec<char>, Vec<char>), Stage>(entries_view(final(self).blocked@)),
            map_of(entries_view(final(self).blocked@)) == map_of(entries_view(old(self).blocked@)).insert(
                key@,
                if map_of(entries_view(old(self).blocked@)).contains_key(key@) {
                    first_of(map_of(entries_view(old(self).blocked@))[key@], stage)
                } else {
                    stage
                },
            ),
            final(self).parts == old(self).parts,
            final(self).read == old(self).read,
            final(self).refused == old(self).refused,
            final(self).stages == old(self).stages,
            final(self).counted == old(self).counted,
            final(self).classes == old(self).classes,
            final(self).refusals == old(self).refusals,
    {
        let ghost s = entries_view(self.blocked@);
        proof {
            lemma_map_of::<(Vec<char>, Vec<char>), Stage>(s);
        }
        let (pos, found) = locate(&self.blocked, &key);
        if found {
            let current = self.blocked[pos].1;
            proof {
                assert(s[pos as int].0 == key@ && s[pos as int].1 == current);
                assert(map_of(s)[s[pos as int].0] == s[pos as int].1);
            }
            if stage_index(stage) < stage_index(current) {
                proof {
                    lemma_update::<(Vec<char>, Vec<char>), Stage>(s, pos as int, stage);
                }
                self.blocked.set(pos, (key, stage));
                assert(entries_view(self.blocked@) =~= s.update(pos as int, (s[pos as int].0, stage)));
            } else {
                proof {
                    lemma_update::<(Vec<char>, Vec<char>), Stage>(s, pos as int, current);
                    assert(s.update(pos as int, (s[pos as int].0, current)) =~= s);
                }
            }
        } else {
            proof {
                assert forall|i: int| 0 <= i < pos implies <(Vec<char>, Vec<char>) as Ordered>::before(
                    #[trigger] s[i].0,
                    key@,
                ) by {
                    assert(s[i].0 == self.blocked@[i].0@);
                }
                lemma_insert::<(Vec<char>, Vec<char>), Stage>(s, pos as int, key@, stage);
            }
            self.blocked.insert(pos, (key, stage));
            assert(entries_view(self.blocked@) =~= s.insert(pos as int, (key@, stage)));
        }
    }
}

} // verus!

verus! {

/// An entry of the blocked map: `(cycle, part)` and the first stage.
pub type BlockedEntry = ((Seq<char>, Seq<char>), Stage);

/// An entry of the refusal map: `(cycle, stage, name)` and its count.
pub type RefusalEntry = ((Seq<char>, Stage, Seq<char>), usize);

/// The blocked map's entries in key order.
pub open spec fn blocked_entries(v: HistogramView) -> Seq<BlockedEntry> {
    canon::<(Vec<char>, Vec<char>), Stage>(v.blocked)
}

/// The refusal map's entries in key order.
pub open spec fn refusal_entries(v: HistogramView) -> Seq<RefusalEntry> {
    canon::<(Vec<char>, Stage, Vec<char>), usize>(v.refusals)
}

/// The class map's entries in key order.
pub open spec fn class_entries(v: HistogramView) -> Seq<(Seq<char>, usize)> {
    canon::<Vec<char>, usize>(v.classes)
}

/// How many entries of `s` are of `cycle`.
pub open spec fn blocked_count(s: Seq<BlockedEntry>, cycle: Seq<char>) -> nat
    decreases s.len(),
{
    if s.len() == 0 {
        0
    } else {
        blocked_count(s.drop_last(), cycle) + if s.last().0.0 == cycle { 1nat } else { 0nat }
    }
}

/// How many entries of `s` are of `cycle` and at `stage`.
pub open spec fn blocked_count_at(s: Seq<BlockedEntry>, cycle: Seq<char>, stage: Stage) -> nat
    decreases s.len(),
{
    if s.len() == 0 {
        0
    } else {
        blocked_count_at(s.drop_last(), cycle, stage) + if s.last().0.0 == cycle && s.last().1
            == stage {
            1nat
        } else {
            0nat
        }
    }
}

/// How many parts `cycle` blocks.
pub open spec fn parts_blocked_of(v: HistogramView, cycle: Seq<char>) -> nat {
    blocked_count(blocked_entries(v), cycle)
}

/// A cycle's place among the named cycles; after them for any other.
pub open spec fn rank(cycle: Seq<char>) -> nat {
    if cycle == named_cycles()[0] {
        0
    } else if cycle == named_cycles()[1] {
        1
    } else if cycle == named_cycles()[2] {
        2
    } else if cycle == named_cycles()[3] {
        3
    } else {
        4
    }
}

/// The cycles a histogram prints, before sorting: the named ones, then
/// every other cycle of `s` once, in order.
pub open spec fn add_cycles(cycles: Seq<Seq<char>>, s: Seq<BlockedEntry>) -> Seq<Seq<char>>
    decreases s.len(),
{
    if s.len() == 0 {
        cycles
    } else {
        add_cycles(
            if cycles.contains(s[0].0.0) {
                cycles
            } else {
                cycles.push(s[0].0.0)
            },
            s.drop_first(),
        )
    }
}

/// The order of the cycle table: most parts blocked first, then the
/// named order, then by name.
pub open spec fn cycle_first(v: HistogramView) -> spec_fn(Seq<char>, Seq<char>) -> bool {
    |a: Seq<char>, b: Seq<char>|
        {
            let (x, y) = (parts_blocked_of(v, a), parts_blocked_of(v, b));
            x > y || (x == y && (rank(a) < rank(b) || (rank(a) == rank(b) && seq_before(a, b))))
        }
}

/// The order of the refusal table: most frequent first, then the named
/// order of the cycle, then by key.
pub open spec fn refusal_first() -> spec_fn(RefusalEntry, RefusalEntry) -> bool {
    |a: RefusalEntry, b: RefusalEntry|
        {
            ||| a.1 > b.1
            ||| a.1 == b.1 && rank(a.0.0) < rank(b.0.0)
            ||| a.1 == b.1 && rank(a.0.0) == rank(b.0.0) && <(Vec<char>, Stage, Vec<char>) as Ordered>::before(a.0, b.0)
        }
}

/// The cycles in the order the table prints them.
pub open spec fn sorted_cycles(v: HistogramView) -> Seq<Seq<char>> {
    sort_by(add_cycles(named_cycles(), blocked_entries(v)), cycle_first(v))
}

/// The first `n` stages' cells of a cycle's row.
pub open spec fn stage_cells(v: HistogramView, cycle: Seq<char>, n: nat) -> Seq<char>
    decreases n,
{
    if n == 0 {
        Seq::empty()
    } else {
        stage_cells(v, cycle, (n - 1) as nat) + " "@ + decimal(
            blocked_count_at(blocked_entries(v), cycle, Stage::spec_at((n - 1) as nat)),
        ) + " |"@
    }
}

/// A cycle's row: its name, its parts blocked, and per stage the parts
/// it first blocks there.
pub open spec fn cycle_row(v: HistogramView, cycle: Seq<char>) -> Seq<char> {
    "| "@ + cycle + " | "@ + decimal(parts_blocked_of(v, cycle)) + " |"@ + stage_cells(
        v,
        cycle,
        STAGE_COUNT as nat,
    ) + "\n"@
}

/// The rows of `cycles`, in order.
pub open spec fn cycle_rows(v: HistogramView, cycles: Seq<Seq<char>>) -> Seq<char>
    decreases cycles.len(),
{
    if cycles.len() == 0 {
        Seq::empty()
    } else {
        cycle_rows(v, cycles.drop_last()) + cycle_row(v, cycles.last())
    }
}

/// The first `n` stages' header cells.
pub open spec fn header_cells(n: nat) -> Seq<char>
    decreases n,
{
    if n == 0 {
        Seq::empty()
    } else {
        header_cells((n - 1) as nat) + " "@ + Stage::spec_at((n - 1) as nat).spec_name() + " |"@
    }
}

/// `n` right-aligned column rules.
pub open spec fn rules(n: nat) -> Seq<char>
    decreases n,
{
    if n == 0 {
        Seq::empty()
    } else {
        rules((n - 1) as nat) + "---:|"@
    }
}

/// The cycle table: header, rule, a row per cycle.
pub open spec fn cycle_table(v: HistogramView) -> Seq<char> {
    "| Cycle | Parts blocked |"@ + header_cells(STAGE_COUNT as nat) + "\n|---|---:|"@ + rules(
        STAGE_COUNT as nat,
    ) + "\n"@ + cycle_rows(v, sorted_cycles(v))
}

/// A refusal's row.
pub open spec fn refusal_row(e: RefusalEntry) -> Seq<char> {
    "| "@ + e.0.2 + " | "@ + e.0.1.spec_name() + " | "@ + decimal(e.1 as nat) + " | "@ + e.0.0
        + " |\n"@
}

/// The rows of `s`, in order.
pub open spec fn refusal_rows(s: Seq<RefusalEntry>) -> Seq<char>
    decreases s.len(),
{
    if s.len() == 0 {
        Seq::empty()
    } else {
        refusal_rows(s.drop_last()) + refusal_row(s.last())
    }
}

/// The refusal table: header, rule, a row per refusal, most frequent
/// first.
pub open spec fn refusal_table(v: HistogramView) -> Seq<char> {
    "| Refusal | Stage | Count | Blocks |\n|---|---|---:|---|\n"@ + refusal_rows(
        sort_by(refusal_entries(v), refusal_first()),
    )
}

/// The count of battery stages of class `class`.
pub open spec fn class_count(v: HistogramView, class: Seq<char>) -> nat {
    count_of(v.classes, class)
}

/// The summary line.
pub open spec fn summary(v: HistogramView) -> Seq<char> {
    decimal(v.parts.len()) + " parts, "@ + decimal(v.read + v.refused) + " solids: "@ + decimal(
        v.read,
    ) + " read, "@ + decimal(v.refused) + " refused. "@ + decimal(sum_counts(class_entries(v)))
        + " battery stages: "@ + decimal(class_count(v, "agree"@)) + " agree, "@ + decimal(
        class_count(v, "both-refuse"@),
    ) + " both refuse, "@ + decimal(class_count(v, "oracle-refuses"@))
        + " Open CASCADE refuses, "@ + decimal(class_count(v, "arris-refuses"@))
        + " Arris refuses.\n"@
}

/// The histogram as markdown: the summary line; *cycle → parts blocked*,
/// each part under the first stage the cycle blocks it at, every named
/// cycle with its row, most parts first; and every refusal by name, most
/// frequent first.
pub open spec fn markdown_text(v: HistogramView) -> Seq<char> {
    summary(v) + "\n"@ + cycle_table(v) + "\n"@ + refusal_table(v)
}

} // verus!

verus! {

/// The texts' views.
pub open spec fn views(s: Seq<Vec<char>>) -> Seq<Seq<char>> {
    s.map_values(|c: Vec<char>| c@)
}

/// Whether `c` is one of `cs`.
fn contains_chars(cs: &Vec<Vec<char>>, c: &[char]) -> (r: bool)
    ensures
        r == views(cs@).contains(c@),
{
    let mut i: usize = 0;
    while i < cs.len()
        invariant
            i <= cs@.len(),
            forall|j: int| 0 <= j < i ==> views(cs@)[j] != c@,
        decreases cs@.len() - i,
    {
        if compare_chars(cs[i].as_slice(), c) == Order::Equal {
            assert(views(cs@)[i as int] == c@);
            return true;
        }
        i = i + 1;
    }
    false
}

/// [`rank`], computed.
fn rank_of(c: &[char]) -> (r: usize)
    ensures
        r == rank(c@),
{
    let names = [chars_of("healing"), chars_of("NURBS"), chars_of("blend network"), chars_of("sweep")];
    if compare_chars(c, names[0].as_slice()) == Order::Equal {
        0
    } else if compare_chars(c, names[1].as_slice()) == Order::Equal {
        1
    } else if compare_chars(c, names[2].as_slice()) == Order::Equal {
        2
    } else if compare_chars(c, names[3].as_slice()) == Order::Equal {
        3
    } else {
        4
    }
}

impl Histogram {
    /// [`blocked_count`] of the entries, computed.
    fn blocked_with(&self, cycle: &[char]) -> (n: usize)
        ensures
            n == blocked_count(entries_view(self.blocked@), cycle@),
    {
        let ghost s = entries_view(self.blocked@);
        let mut n: usize = 0;
        let mut i: usize = 0;
        while i < self.blocked.len()
            invariant
                i <= self.blocked@.len(),
                s == entries_view(self.blocked@),
                n == blocked_count(s.take(i as int), cycle@),
                n <= i,
            decreases self.blocked@.len() - i,
        {
            assert(s.take(i + 1).drop_last() =~= s.take(i as int));
            assert(s.take(i + 1).last() == s[i as int]);
            if compare_chars(self.blocked[i].0.0.as_slice(), cycle) == Order::Equal {
                n = n + 1;
            }
            i = i + 1;
        }
        assert(s.take(i as int) =~= s);
        n
    }

    /// [`blocked_count_at`] of the entries, computed.
    fn blocked_with_at(&self, cycle: &[char], stage: Stage) -> (n: usize)
        ensures
            n == blocked_count_at(entries_view(self.blocked@), cycle@, stage),
    {
        let ghost s = entries_view(self.blocked@);
        let mut n: usize = 0;
        let mut i: usize = 0;
        while i < self.blocked.len()
            invariant
                i <= self.blocked@.len(),
                s == entries_view(self.blocked@),
                n == blocked_count_at(s.take(i as int), cycle@, stage),
                n <= i,
            decreases self.blocked@.len() - i,
        {
            assert(s.take(i + 1).drop_last() =~= s.take(i as int));
            assert(s.take(i + 1).last() == s[i as int]);
            if compare_chars(self.blocked[i].0.0.as_slice(), cycle) == Order::Equal
                && self.blocked[i].1 == stage {
                n = n + 1;
            }
            i = i + 1;
        }
        assert(s.take(i as int) =~= s);
        n
    }

    /// The entries of the view's maps are the vectors'.
    proof fn lemma_entries(&self)
        requires
            self.wf(),
        ensures
            blocked_entries(self@) == entries_view(self.blocked@),
            refusal_entries(self@) == entries_view(self.refusals@),
            class_entries(self@) == entries_view(self.classes@),
            self@.parts.finite(),
            self@.parts.len() == self.parts@.len(),
    {
        lemma_canon::<(Vec<char>, Vec<char>), Stage>(entries_view(self.blocked@));
        lemma_canon::<(Vec<char>, Stage, Vec<char>), usize>(entries_view(self.refusals@));
        lemma_canon::<Vec<char>, usize>(entries_view(self.classes@));
        lemma_map_of::<Vec<char>, ()>(entries_view(self.parts@));
    }

    /// How many parts `cycle` blocks.
    pub fn parts_blocked(&self, cycle: &str) -> (n: usize)
        requires
            self.wf(),
        ensures
            n == parts_blocked_of(self@, cycle@),
    {
        proof {
            self.lemma_entries();
        }
        let c = chars_of(cycle);
        self.blocked_with(c.as_slice())
    }

    /// Whether `a` comes before `b` in the cycle table.
    fn cycle_before(&self, a: &[char], b: &[char]) -> (r: bool)
        requires
            self.wf(),
        ensures
            r == (cycle_first(self@))(a@, b@),
    {
        proof {
            self.lemma_entries();
        }
        let (x, y) = (self.blocked_with(a), self.blocked_with(b));
        let (ra, rb) = (rank_of(a), rank_of(b));
        x > y || (x == y && (ra < rb || (ra == rb && compare_chars(a, b) == Order::Less)))
    }

    /// The count of class `class`.
    fn class_of(&self, class: &str) -> (n: usize)
        requires
            self.wf(),
        ensures
            n == class_count(self@, class@),
    {
        let c = chars_of(class);
        let ghost s = entries_view(self.classes@);
        proof {
            lemma_map_of::<Vec<char>, usize>(s);
        }
        let (pos, found) = locate(&self.classes, &c);
        if found {
            assert(map_of(s)[s[pos as int].0] == s[pos as int].1);
            self.classes[pos].1
        } else {
            proof {
                if map_of(s).contains_key(c@) {
                    let i = choose|i: int| 0 <= i < s.len() && s[i].0 == c@;
                    if i < pos {
                        <Vec<char> as Ordered>::lemma_irreflexive(c@);
                    } else {
                        if i > pos {
                            <Vec<char> as Ordered>::lemma_transitive(c@, s[pos as int].0, s[i].0);
                        }
                        <Vec<char> as Ordered>::lemma_irreflexive(c@);
                    }
                }
            }
            0
        }
    }

    /// Appends the summary line.
    #[verifier::rlimit(40)]
    fn push_summary(&self, out: &mut Vec<char>)
        requires
            self.wf(),
        ensures
            final(out)@ == old(out)@ + summary(self@),
    {
        proof {
            self.lemma_entries();
        }
        let agree = self.class_of("agree");
        let both = self.class_of("both-refuse");
        let oracle = self.class_of("oracle-refuses");
        let arris = self.class_of("arris-refuses");
        let ghost v = self@;
        let ghost start = out@;
        push_decimal(out, self.parts.len() as u64);
        push_str(out, " parts, ");
        push_decimal(out, (self.read + self.refused) as u64);
        push_str(out, " solids: ");
        let ghost a = decimal(v.parts.len()) + " parts, "@ + decimal(v.read + v.refused) + " solids: "@;
        assert(out@ =~= start + a);
        push_decimal(out, self.read as u64);
        push_str(out, " read, ");
        push_decimal(out, self.refused as u64);
        push_str(out, " refused. ");
        let ghost b = a + decimal(v.read) + " read, "@ + decimal(v.refused) + " refused. "@;
        assert(out@ =~= start + b);
        push_decimal(out, self.stages as u64);
        push_str(out, " battery stages: ");
        push_decimal(out, agree as u64);
        push_str(out, " agree, ");
        let ghost c = b + decimal(sum_counts(class_entries(v))) + " battery stages: "@ + decimal(
            class_count(v, "agree"@),
        ) + " agree, "@;
        assert(out@ =~= start + c);
        push_decimal(out, both as u64);
        push_str(out, " both refuse, ");
        push_decimal(out, oracle as u64);
        push_str(out, " Open CASCADE refuses, ");
        let ghost d = c + decimal(class_count(v, "both-refuse"@)) + " both refuse, "@ + decimal(
            class_count(v, "oracle-refuses"@),
        ) + " Open CASCADE refuses, "@;
        assert(out@ =~= start + d);
        push_decimal(out, arris as u64);
        push_str(out, " Arris refuses.\n");
        assert(out@ =~= start + (d + decimal(class_count(v, "arris-refuses"@)) + " Arris refuses.\n"@));
    }
}

} // verus!

verus! {

impl Histogram {
    /// The cycles the table prints, unsorted: [`add_cycles`].
    fn cycle_list(&self) -> (cs: Vec<Vec<char>>)
        ensures
            views(cs@) == add_cycles(named_cycles(), entries_view(self.blocked@)),
    {
        let mut cs: Vec<Vec<char>> = Vec::new();
        cs.push(chars_of("healing"));
        cs.push(chars_of("NURBS"));
        cs.push(chars_of("blend network"));
        cs.push(chars_of("sweep"));
        assert(views(cs@) =~= named_cycles());
        let ghost s = entries_view(self.blocked@);
        let mut i: usize = 0;
        assert(s.skip(0) =~= s);
        while i < self.blocked.len()
            invariant
                i <= self.blocked@.len(),
                s == entries_view(self.blocked@),
                add_cycles(views(cs@), s.skip(i as int)) == add_cycles(named_cycles(), s),
            decreases self.blocked@.len() - i,
        {
            let c = &self.blocked[i].0.0;
            let ghost before = views(cs@);
            assert(s.skip(i as int)[0] == s[i as int]);
            assert(s.skip(i as int).drop_first() =~= s.skip(i + 1));
            if !contains_chars(&cs, c.as_slice()) {
                cs.push(c.clone());
                assert(views(cs@) =~= before.push(c@));
            }
            i = i + 1;
        }
        assert(s.skip(i as int) =~= Seq::<BlockedEntry>::empty());
        cs
    }

    /// `cs` in the table's order: [`sort_by`] with [`cycle_first`].
    fn sort_cycles(&self, cs: &Vec<Vec<char>>) -> (out: Vec<Vec<char>>)
        requires
            self.wf(),
        ensures
            views(out@) == sort_by(views(cs@), cycle_first(self@)),
    {
        let ghost first = cycle_first(self@);
        let mut out: Vec<Vec<char>> = Vec::new();
        let mut i: usize = 0;
        assert(views(cs@).take(0) =~= Seq::<Seq<char>>::empty());
        assert(views(out@) =~= Seq::<Seq<char>>::empty());
        while i < cs.len()
            invariant
                self.wf(),
                first == cycle_first(self@),
                i <= cs@.len(),
                views(out@) == sort_by(views(cs@).take(i as int), first),
            decreases cs@.len() - i,
        {
            let x = &cs[i];
            let mut p: usize = 0;
            while p < out.len() && !self.cycle_before(x.as_slice(), out[p].as_slice())
                invariant
                    self.wf(),
                    first == cycle_first(self@),
                    p <= out@.len(),
                    forall|j: int| 0 <= j < p ==> !first(x@, #[trigger] views(out@)[j]),
                decreases out@.len() - p,
            {
                p = p + 1;
            }
            let ghost old_out = views(out@);
            proof {
                lemma_insert_by(old_out, x@, first, p as int);
                assert(views(cs@).take(i + 1).drop_last() =~= views(cs@).take(i as int));
                assert(views(cs@).take(i + 1).last() == x@);
            }
            out.insert(p, x.clone());
            assert(views(out@) =~= old_out.insert(p as int, x@));
            i = i + 1;
        }
        assert(views(cs@).take(i as int) =~= views(cs@));
        out
    }

    /// Appends `cycle`'s row.
    fn push_cycle_row(&self, out: &mut Vec<char>, cycle: &[char])
        requires
            self.wf(),
        ensures
            final(out)@ == old(out)@ + cycle_row(self@, cycle@),
    {
        proof {
            self.lemma_entries();
        }
        let ghost start = out@;
        push_str(out, "| ");
        push_chars(out, cycle);
        push_str(out, " | ");
        push_decimal(out, self.blocked_with(cycle) as u64);
        push_str(out, " |");
        let ghost head = "| "@ + cycle@ + " | "@ + decimal(parts_blocked_of(self@, cycle@)) + " |"@;
        assert(out@ =~= start + head);
        let mut i: usize = 0;
        while i < STAGE_COUNT
            invariant
                self.wf(),
                blocked_entries(self@) == entries_view(self.blocked@),
                i <= STAGE_COUNT,
                out@ == start + head + stage_cells(self@, cycle@, i as nat),
            decreases STAGE_COUNT - i,
        {
            let ghost before = out@;
            let n = self.blocked_with_at(cycle, Stage::at(i));
            push_str(out, " ");
            push_decimal(out, n as u64);
            push_str(out, " |");
            assert(out@ =~= before + " "@ + decimal(n as nat) + " |"@);
            i = i + 1;
            assert(out@ =~= start + head + stage_cells(self@, cycle@, i as nat));
        }
        push_str(out, "\n");
        assert(out@ =~= start + cycle_row(self@, cycle@));
    }

    /// Appends the cycle table.
    fn push_cycle_table(&self, out: &mut Vec<char>)
        requires
            self.wf(),
        ensures
            final(out)@ == old(out)@ + cycle_table(self@),
    {
        proof {
            self.lemma_entries();
        }
        let ghost start = out@;
        push_str(out, "| Cycle | Parts blocked |");
        let mut i: usize = 0;
        while i < STAGE_COUNT
            invariant
                i <= STAGE_COUNT,
                out@ == start + "| Cycle | Parts blocked |"@ + header_cells(i as nat),
            decreases STAGE_COUNT - i,
        {
            let ghost before = out@;
            push_str(out, " ");
            push_str(out, Stage::at(i).name());
            push_str(out, " |");
            assert(out@ =~= before + " "@ + Stage::spec_at(i as nat).spec_name() + " |"@);
            i = i + 1;
            assert(out@ =~= start + "| Cycle | Parts blocked |"@ + header_cells(i as nat));
        }
        push_str(out, "\n|---|---:|");
        let ghost mid = out@;
        let mut j: usize = 0;
        assert(mid =~= mid + rules(0));
        while j < STAGE_COUNT
            invariant
                j <= STAGE_COUNT,
                out@ == mid + rules(j as nat),
            decreases STAGE_COUNT - j,
        {
            push_str(out, "---:|");
            j = j + 1;
            assert(out@ =~= mid + rules(j as nat));
        }
        push_str(out, "\n");
        let ghost head = out@;
        let cycles = self.cycle_list();
        let sorted = self.sort_cycles(&cycles);
        let ghost order = views(sorted@);
        assert(order == sorted_cycles(self@));
        let mut k: usize = 0;
        assert(order.take(0) =~= Seq::<Seq<char>>::empty());
        assert(head =~= head + cycle_rows(self@, order.take(0)));
        while k < sorted.len()
            invariant
                self.wf(),
                order == views(sorted@),
                k <= sorted@.len(),
                out@ == head + cycle_rows(self@, order.take(k as int)),
            decreases sorted@.len() - k,
        {
            self.push_cycle_row(out, sorted[k].as_slice());
            assert(order.take(k + 1).drop_last() =~= order.take(k as int));
            assert(order.take(k + 1).last() == sorted@[k as int]@);
            k = k + 1;
            assert(out@ =~= head + cycle_rows(self@, order.take(k as int)));
        }
        assert(order.take(k as int) =~= order);
        assert(out@ =~= start + cycle_table(self@));
    }
}

} // verus!

verus! {

/// A refusal entry, executable.
pub type RefusalItem = ((Vec<char>, Stage, Vec<char>), usize);

/// Whether `a` comes before `b` in the refusal table.
fn refusal_before(a: &RefusalItem, b: &RefusalItem) -> (r: bool)
    ensures
        r == (refusal_first())((a.0@, a.1), (b.0@, b.1)),
{
    let (ra, rb) = (rank_of(a.0.0.as_slice()), rank_of(b.0.0.as_slice()));
    a.1 > b.1 || (a.1 == b.1 && (ra < rb || (ra == rb && a.0.compare(&b.0) == Order::Less)))
}

impl Histogram {
    /// The refusal entries in the table's order.
    fn sorted_refusals(&self) -> (out: Vec<RefusalItem>)
        requires
            self.wf(),
        ensures
            entries_view(out@) == sort_by(entries_view(self.refusals@), refusal_first()),
    {
        let ghost first = refusal_first();
        let ghost s = entries_view(self.refusals@);
        let mut out: Vec<RefusalItem> = Vec::new();
        let mut i: usize = 0;
        assert(s.take(0) =~= Seq::<RefusalEntry>::empty());
        assert(entries_view(out@) =~= Seq::<RefusalEntry>::empty());
        while i < self.refusals.len()
            invariant
                first == refusal_first(),
                s == entries_view(self.refusals@),
                i <= self.refusals@.len(),
                entries_view(out@) == sort_by(s.take(i as int), first),
            decreases self.refusals@.len() - i,
        {
            let x: RefusalItem = (self.refusals[i].0.duplicate(), self.refusals[i].1);
            assert((x.0@, x.1) == s[i as int]);
            let mut p: usize = 0;
            while p < out.len() && !refusal_before(&x, &out[p])
                invariant
                    first == refusal_first(),
                    p <= out@.len(),
                    forall|j: int| 0 <= j < p ==> !first((x.0@, x.1), #[trigger] entries_view(out@)[j]),
                decreases out@.len() - p,
            {
                p = p + 1;
            }
            let ghost old_out = entries_view(out@);
            proof {
                lemma_insert_by(old_out, (x.0@, x.1), first, p as int);
                assert(s.take(i + 1).drop_last() =~= s.take(i as int));
                assert(s.take(i + 1).last() == s[i as int]);
            }
            out.insert(p, x);
            assert(entries_view(out@) =~= old_out.insert(p as int, (x.0@, x.1)));
            i = i + 1;
        }
        assert(s.take(i as int) =~= s);
        out
    }

    /// Appends the refusal table.
    fn push_refusal_table(&self, out: &mut Vec<char>)
        requires
            self.wf(),
        ensures
            final(out)@ == old(out)@ + refusal_table(self@),
    {
        proof {
            self.lemma_entries();
        }
        let ghost start = out@;
        push_str(out, "| Refusal | Stage | Count | Blocks |\n|---|---|---:|---|\n");
        let ghost head = out@;
        let sorted = self.sorted_refusals();
        let ghost order = entries_view(sorted@);
        let mut k: usize = 0;
        assert(order.take(0) =~= Seq::<RefusalEntry>::empty());
        assert(head =~= head + refusal_rows(order.take(0)));
        while k < sorted.len()
            invariant
                order == entries_view(sorted@),
                k <= sorted@.len(),
                out@ == head + refusal_rows(order.take(k as int)),
            decreases sorted@.len() - k,
        {
            let e = &sorted[k];
            let ghost before = out@;
            push_str(out, "| ");
            push_chars(out, e.0.2.as_slice());
            push_str(out, " | ");
            push_str(out, e.0.1.name());
            push_str(out, " | ");
            push_decimal(out, e.1 as u64);
            push_str(out, " | ");
            push_chars(out, e.0.0.as_slice());
            push_str(out, " |\n");
            assert(order[k as int] == (e.0@, e.1));
            assert(out@ =~= before + refusal_row(order[k as int]));
            assert(order.take(k + 1).drop_last() =~= order.take(k as int));
            assert(order.take(k + 1).last() == order[k as int]);
            k = k + 1;
        }
        assert(order.take(k as int) =~= order);
        assert(out@ =~= start + refusal_table(self@));
    }

    /// The histogram as markdown: a summary line; *cycle → parts
    /// blocked*, each part under the first stage the cycle blocks it at,
    /// every named cycle with its row, most parts first; and every
    /// refusal by name, most frequent first.
    pub fn markdown(&self) -> (s: String)
        requires
            self.wf(),
        ensures
            s@ == markdown_text(self@),
    {
        let mut out: Vec<char> = Vec::new();
        self.push_summary(&mut out);
        push_str(&mut out, "\n");
        self.push_cycle_table(&mut out);
        push_str(&mut out, "\n");
        self.push_refusal_table(&mut out);
        assert(out@ =~= markdown_text(self@));
        string_of(out.as_slice())
    }
}

} // verus!

verus! {

/// One addition to a histogram, as its `add_` methods make them.
pub enum Addition {
    /// [`Histogram::add`] of the part.
    Part(Seq<char>),
    /// [`Histogram::add_read`] of the part.
    Read(Seq<char>),
    /// [`Histogram::add_class`] of the part and the class.
    Class(Seq<char>, Seq<char>),
    /// [`Histogram::add_refusal`] of the part, stage, name and cycle.
    Refusal(Seq<char>, Stage, Seq<char>, Seq<char>),
}

/// `v` after the addition `a`.
pub open spec fn apply(v: HistogramView, a: Addition) -> HistogramView {
    match a {
        Addition::Part(p) => with_part(v, p),
        Addition::Read(p) => with_read(v, p),
        Addition::Class(p, c) => with_class(v, p, c),
        Addition::Refusal(p, s, n, c) => with_refusal(v, p, s, n, c),
    }
}

/// `v` after the additions `s`, in order.
pub open spec fn apply_all(v: HistogramView, s: Seq<Addition>) -> HistogramView
    decreases s.len(),
{
    if s.len() == 0 {
        v
    } else {
        apply_all(apply(v, s[0]), s.drop_first())
    }
}

proof fn lemma_count_commutes<K>(m: Map<K, usize>, a: K, b: K)
    ensures
        ({
            let ma = m.insert(a, (count_of(m, a) + 1) as usize);
            let mb = m.insert(b, (count_of(m, b) + 1) as usize);
            ma.insert(b, (count_of(ma, b) + 1) as usize) == mb.insert(a, (count_of(mb, a) + 1) as usize)
        }),
{
    let ma = m.insert(a, (count_of(m, a) + 1) as usize);
    let mb = m.insert(b, (count_of(m, b) + 1) as usize);
    if a != b {
        assert(count_of(ma, b) == count_of(m, b));
        assert(count_of(mb, a) == count_of(m, a));
        assert(ma.insert(b, (count_of(ma, b) + 1) as usize) =~= mb.insert(a, (count_of(mb, a) + 1) as usize));
    }
}

proof fn lemma_block_commutes(m: Map<(Seq<char>, Seq<char>), Stage>, a: (Seq<char>, Seq<char>), sa: Stage, b: (Seq<char>, Seq<char>), sb: Stage)
    ensures
        ({
            let blk = |m: Map<(Seq<char>, Seq<char>), Stage>, k: (Seq<char>, Seq<char>), s: Stage|
                m.insert(k, if m.contains_key(k) { first_of(m[k], s) } else { s });
            blk(blk(m, a, sa), b, sb) == blk(blk(m, b, sb), a, sa)
        }),
{
    let blk = |m: Map<(Seq<char>, Seq<char>), Stage>, k: (Seq<char>, Seq<char>), s: Stage|
        m.insert(k, if m.contains_key(k) { first_of(m[k], s) } else { s });
    if a != b {
        assert(blk(blk(m, a, sa), b, sb) =~= blk(blk(m, b, sb), a, sa));
    } else {
        assert(first_of(sa, sb) == first_of(sb, sa));
        if m.contains_key(a) {
            assert(first_of(first_of(m[a], sa), sb) == first_of(first_of(m[a], sb), sa));
        }
        assert(blk(blk(m, a, sa), b, sb) =~= blk(blk(m, b, sb), a, sa));
    }
}

/// Any two additions to a histogram commute.
pub proof fn lemma_additions_commute(v: HistogramView, a: Addition, b: Addition)
    ensures
        apply(apply(v, a), b) == apply(apply(v, b), a),
{
    let (x, y) = (apply(apply(v, a), b), apply(apply(v, b), a));
    assert(x.parts =~= y.parts);
    let mc = v.classes;
    match (a, b) {
        (Addition::Class(_, c1), Addition::Class(_, c2)) => {
            lemma_count_commutes(mc, c1, c2);
        },
        _ => {},
    }
    assert(x.classes == y.classes);
    match (a, b) {
        (Addition::Refusal(p1, s1, n1, c1), Addition::Refusal(p2, s2, n2, c2)) => {
            lemma_count_commutes(v.refusals, (c1, s1, n1), (c2, s2, n2));
            lemma_block_commutes(v.blocked, (c1, p1), s1, (c2, p2), s2);
        },
        _ => {},
    }
    assert(x.refusals == y.refusals);
    assert(x.blocked == y.blocked);
}

/// An addition made anywhere in a sequence of additions is the same as
/// made first.
proof fn lemma_move_to_front(v: HistogramView, s: Seq<Addition>, i: int)
    requires
        0 <= i < s.len(),
    ensures
        apply_all(v, s) == apply_all(apply(v, s[i]), s.remove(i)),
    decreases i,
{
    if i > 0 {
        let t = s.drop_first();
        lemma_move_to_front(apply(v, s[0]), t, i - 1);
        assert(t[i - 1] == s[i]);
        // apply_all(v, s) == apply_all(apply(apply(v, s0), si), t.remove(i - 1))
        lemma_additions_commute(v, s[0], s[i]);
        assert(s.remove(i) =~= seq![s[0]] + t.remove(i - 1));
        assert((seq![s[0]] + t.remove(i - 1)).drop_first() =~= t.remove(i - 1));
    }
}

/// The same additions in any order leave the same histogram.
pub proof fn lemma_order_independent(v: HistogramView, s1: Seq<Addition>, s2: Seq<Addition>)
    requires
        s1.to_multiset() == s2.to_multiset(),
    ensures
        apply_all(v, s1) == apply_all(v, s2),
    decreases s1.len(),
{
    broadcast use vstd::seq_lib::group_to_multiset_ensures;

    if s1.len() == 0 {
        assert(s1.to_multiset().len() == 0);
        assert(s2.to_multiset().len() == s2.len());
    } else {
        let a = s1[0];
        assert(s1.contains(a));
        assert(s2.to_multiset().count(a) > 0);
        assert(s2.contains(a));
        let i = choose|i: int| 0 <= i < s2.len() && s2[i] == a;
        lemma_move_to_front(v, s2, i);
        assert(s1.drop_first() =~= s1.remove(0));
        assert(s1.drop_first().to_multiset() == s2.remove(i).to_multiset());
        lemma_order_independent(apply(v, a), s1.drop_first(), s2.remove(i));
    }
}

/// The same additions in any order print the same text, byte for byte.
pub proof fn lemma_markdown_order_independent(v: HistogramView, s1: Seq<Addition>, s2: Seq<Addition>)
    requires
        s1.to_multiset() == s2.to_multiset(),
    ensures
        markdown_text(apply_all(v, s1)) == markdown_text(apply_all(v, s2)),
{
    lemma_order_independent(v, s1, s2);
}

} // verus!

verus! {

/// The stage a survey's refusal names, or the read where it names none.
pub open spec fn stage_or_read(name: Seq<char>) -> Stage {
    match Stage::spec_of_name(name) {
        Some(s) => s,
        None => Stage::Read,
    }
}

/// `v` with a stage of `part` at each class of `cs`, in order.
pub open spec fn with_classes(v: HistogramView, part: Seq<char>, cs: Seq<Seq<char>>) -> HistogramView
    decreases cs.len(),
{
    if cs.len() == 0 {
        v
    } else {
        with_class(with_classes(v, part, cs.drop_last()), part, cs.last())
    }
}

/// `v` with each of `rs`, `(stage, name, cycle)`, counted as a refusal
/// of `part`, in order.
pub open spec fn with_refusals(
    v: HistogramView,
    part: Seq<char>,
    rs: Seq<(Seq<char>, Seq<char>, Seq<char>)>,
) -> HistogramView
    decreases rs.len(),
{
    if rs.len() == 0 {
        v
    } else {
        let r = rs.last();
        with_refusal(with_refusals(v, part, rs.drop_last()), part, stage_or_read(r.0), r.1, r.2)
    }
}

/// The classes a report records, by name.
pub open spec fn report_classes(r: crate::survey::Report) -> Seq<Seq<char>> {
    r.classes@.map_values(|c: (String, String, String)| c.2@)
}

/// The refusals a report counted, `(stage, name, cycle)`.
pub open spec fn report_refusals(r: crate::survey::Report) -> Seq<(Seq<char>, Seq<char>, Seq<char>)> {
    r.refusals@.map_values(|c: crate::survey::Counted| (c.stage@, c.name@, c.cycle@))
}

/// `v` with a surveyed part counted: the part, its solids read, its
/// battery's classes and each refusal under its cycle.
pub open spec fn with_report(v: HistogramView, r: crate::survey::Report) -> HistogramView {
    let counted = HistogramView { read: v.read + r.read as nat, ..with_part(v, r.part@) };
    with_refusals(with_classes(counted, r.part@, report_classes(r)), r.part@, report_refusals(r))
}

impl Histogram {
    /// Room to count `report` whole.
    pub closed spec fn has_room_for_spec(&self, report: crate::survey::Report) -> bool {
        &&& self.read + self.refused + report.read + report.refusals@.len() < usize::MAX
        &&& self.stages + report.classes@.len() < usize::MAX
        &&& self.counted + report.refusals@.len() < usize::MAX
    }

    /// [`Histogram::has_room_for_spec`], computed.
    pub fn has_room_for(&self, report: &crate::survey::Report) -> (r: bool)
        ensures
            r == self.has_room_for_spec(*report),
    {
        report.read < usize::MAX - self.read
            && report.refusals.len() < usize::MAX - self.read - report.read
            && self.refused < usize::MAX - self.read - report.read - report.refusals.len()
            && report.classes.len() < usize::MAX - self.stages
            && report.refusals.len() < usize::MAX - self.counted
    }

    /// Counts a part surveyed live: its solids read and refused, its
    /// battery's classes, and each refusal under the cycle the table gave
    /// it.
    pub fn add_report(&mut self, report: &crate::survey::Report)
        requires
            old(self).wf(),
            old(self).has_room_for_spec(*report),
        ensures
            final(self).wf(),
            final(self)@ == with_report(old(self)@, *report),
            final(self)@ == apply_all(old(self)@, report_additions(*report)),
    {
        proof {
            lemma_report_is_its_calls(old(self)@, *report);
        }
        let part = report.part.as_str();
        self.add(part);
        self.read = self.read + report.read;
        assert(self.has_room_spec());
        let ghost start = self@;
        let ghost cs = report_classes(*report);
        let ghost t0 = self.tally();
        let mut j: usize = 0;
        while j < report.classes.len()
            invariant
                j <= report.classes@.len(),
                self.wf(),
                part@ == report.part@,
                cs == report_classes(*report),
                self@ == with_classes(start, part@, cs.subrange(0, j as int)),
                self.tally() == (t0.0, t0.1 + j, t0.2),
                t0.0 + report.refusals@.len() < usize::MAX,
                t0.1 + report.classes@.len() < usize::MAX,
                t0.2 + report.refusals@.len() < usize::MAX,
            decreases report.classes@.len() - j,
        {
            let class = report.classes[j].2.as_str();
            assert(cs[j as int] == class@);
            self.add_class(part, class);
            assert(cs.subrange(0, j + 1).drop_last() =~= cs.subrange(0, j as int));
            j = j + 1;
        }
        assert(cs.subrange(0, j as int) =~= cs);
        let ghost mid = self@;
        let ghost rs = report_refusals(*report);
        let mut k: usize = 0;
        while k < report.refusals.len()
            invariant
                k <= report.refusals@.len(),
                self.wf(),
                part@ == report.part@,
                rs == report_refusals(*report),
                self@ == with_refusals(mid, part@, rs.subrange(0, k as int)),
                self.tally().0 <= t0.0 + k,
                self.tally().1 < usize::MAX,
                self.tally().2 == t0.2 + k,
                t0.0 + report.refusals@.len() < usize::MAX,
                t0.2 + report.refusals@.len() < usize::MAX,
            decreases report.refusals@.len() - k,
        {
            let r = &report.refusals[k];
            let stage = match Stage::of_name(r.stage.as_str()) {
                Some(s) => s,
                None => Stage::Read,
            };
            assert(rs[k as int] == (r.stage@, r.name@, r.cycle@));
            self.add_refusal(part, stage, r.name.as_str(), r.cycle.as_str());
            assert(rs.subrange(0, k + 1).drop_last() =~= rs.subrange(0, k as int));
            k = k + 1;
        }
        assert(rs.subrange(0, k as int) =~= rs);
    }
}

} // verus!

verus! {

/// The cycle the reader's refusal blocks. It takes the refusal whole: an
/// unsupported surface model is the healing cycle's, a faceted B-rep
/// counts as itself, and construction geometry is no body of the part
/// and counts as itself.
pub open spec fn refusal_cycle(r: ReadRefusal) -> Cycle {
    match r {
        ReadRefusal::NoLengthUnit => Cycle::Itself("no length unit"),
        ReadRefusal::Malformed => Cycle::Itself("malformed"),
        ReadRefusal::Offset | ReadRefusal::Composite => Cycle::Sweep,
        ReadRefusal::CurveBounded => Cycle::Itself("curve-bounded surface"),
        ReadRefusal::DegenerateTorus | ReadRefusal::SelfIntersectingTorus => Cycle::Itself(
            "torus crossing its axis",
        ),
        ReadRefusal::Unsupported { name } => if contains_text(
            name@,
            "CONSTRUCTIVE_GEOMETRY_REPRESENTATION"@,
        ) {
            Cycle::Itself("supplemental geometry")
        } else if contains_text(name@, "SHELL_BASED_SURFACE_MODEL"@) || contains_text(
            name@,
            "FACE_BASED_SURFACE_MODEL"@,
        ) {
            Cycle::Healing
        } else if contains_text(name@, "FACETED_BREP"@) || contains_text(name@, "TESSELLATED"@) {
            Cycle::Itself("faceted")
        } else {
            Cycle::Itself("outside the subset")
        },
        ReadRefusal::Degenerate => Cycle::Itself("degenerate geometry"),
        ReadRefusal::Topology | ReadRefusal::OpenLoop | ReadRefusal::Gap | ReadRefusal::Invalid => Cycle::Healing,
        ReadRefusal::Pcurve => Cycle::Nurbs,
    }
}

/// The cycle a reader's refusal blocks.
pub fn blocks_refusal(refusal: &ReadRefusal) -> (c: Cycle)
    ensures
        c == refusal_cycle(*refusal),
        (*refusal is Topology || *refusal is OpenLoop || *refusal is Gap || *refusal is Invalid) ==> c
            == Cycle::Healing,
        (*refusal is Offset || *refusal is Composite) ==> c == Cycle::Sweep,
        *refusal is Pcurve ==> c == Cycle::Nurbs,
{
    match refusal {
        ReadRefusal::NoLengthUnit => Cycle::Itself("no length unit"),
        ReadRefusal::Malformed => Cycle::Itself("malformed"),
        ReadRefusal::Offset | ReadRefusal::Composite => Cycle::Sweep,
        ReadRefusal::CurveBounded => Cycle::Itself("curve-bounded surface"),
        ReadRefusal::DegenerateTorus | ReadRefusal::SelfIntersectingTorus => Cycle::Itself(
            "torus crossing its axis",
        ),
        ReadRefusal::Unsupported { name } => {
            let n = name.as_str();
            if contains(n, "CONSTRUCTIVE_GEOMETRY_REPRESENTATION") {
                Cycle::Itself("supplemental geometry")
            } else if contains(n, "SHELL_BASED_SURFACE_MODEL") || contains(
                n,
                "FACE_BASED_SURFACE_MODEL",
            ) {
                Cycle::Healing
            } else if contains(n, "FACETED_BREP") || contains(n, "TESSELLATED") {
                Cycle::Itself("faceted")
            } else {
                Cycle::Itself("outside the subset")
            }
        },
        ReadRefusal::Degenerate => Cycle::Itself("degenerate geometry"),
        ReadRefusal::Topology | ReadRefusal::OpenLoop | ReadRefusal::Gap | ReadRefusal::Invalid => Cycle::Healing,
        ReadRefusal::Pcurve => Cycle::Nurbs,
    }
}

/// The cycle a file that does not parse blocks: counted as itself, once
/// per file.
pub fn blocks_parse() -> (c: Cycle)
    ensures
        c == Cycle::Itself("unparsed"),
{
    Cycle::Itself("unparsed")
}

/// The reader's refusal table, row by row: a topology error, an open
/// loop, a gap and an invalid entity block the healing cycle; an offset
/// or composite surface the sweep cycle; a missing p-curve the NURBS
/// cycle; the rest count as themselves, each under its own name.
pub proof fn lemma_refusal_table()
    ensures
        refusal_cycle(ReadRefusal::Topology) == Cycle::Healing,
        refusal_cycle(ReadRefusal::OpenLoop) == Cycle::Healing,
        refusal_cycle(ReadRefusal::Gap) == Cycle::Healing,
        refusal_cycle(ReadRefusal::Invalid) == Cycle::Healing,
        refusal_cycle(ReadRefusal::Offset) == Cycle::Sweep,
        refusal_cycle(ReadRefusal::Composite) == Cycle::Sweep,
        refusal_cycle(ReadRefusal::Pcurve) == Cycle::Nurbs,
        refusal_cycle(ReadRefusal::NoLengthUnit) == Cycle::Itself("no length unit"),
        refusal_cycle(ReadRefusal::Malformed) == Cycle::Itself("malformed"),
        refusal_cycle(ReadRefusal::CurveBounded) == Cycle::Itself("curve-bounded surface"),
        refusal_cycle(ReadRefusal::DegenerateTorus) == Cycle::Itself("torus crossing its axis"),
        refusal_cycle(ReadRefusal::SelfIntersectingTorus) == Cycle::Itself("torus crossing its axis"),
        refusal_cycle(ReadRefusal::Degenerate) == Cycle::Itself("degenerate geometry"),
{
}

/// An unsupported entity's row of the table, by its name: construction
/// geometry is supplemental; otherwise a shell- or face-based surface
/// model blocks the healing cycle; otherwise a faceted or tessellated
/// B-rep counts as faceted; anything else is outside the subset.
pub proof fn lemma_unsupported_rows(name: String)
    ensures
        contains_text(name@, "CONSTRUCTIVE_GEOMETRY_REPRESENTATION"@) ==> refusal_cycle(
            ReadRefusal::Unsupported { name },
        ) == Cycle::Itself("supplemental geometry"),
        !contains_text(name@, "CONSTRUCTIVE_GEOMETRY_REPRESENTATION"@) && (contains_text(
            name@,
            "SHELL_BASED_SURFACE_MODEL"@,
        ) || contains_text(name@, "FACE_BASED_SURFACE_MODEL"@)) ==> refusal_cycle(
            ReadRefusal::Unsupported { name },
        ) == Cycle::Healing,
        !contains_text(name@, "CONSTRUCTIVE_GEOMETRY_REPRESENTATION"@) && !contains_text(
            name@,
            "SHELL_BASED_SURFACE_MODEL"@,
        ) && !contains_text(name@, "FACE_BASED_SURFACE_MODEL"@) && (contains_text(name@, "FACETED_BREP"@)
            || contains_text(name@, "TESSELLATED"@)) ==> refusal_cycle(ReadRefusal::Unsupported { name })
            == Cycle::Itself("faceted"),
        !contains_text(name@, "CONSTRUCTIVE_GEOMETRY_REPRESENTATION"@) && !contains_text(
            name@,
            "SHELL_BASED_SURFACE_MODEL"@,
        ) && !contains_text(name@, "FACE_BASED_SURFACE_MODEL"@) && !contains_text(name@, "FACETED_BREP"@)
            && !contains_text(name@, "TESSELLATED"@) ==> refusal_cycle(ReadRefusal::Unsupported { name })
            == Cycle::Itself("outside the subset"),
{
}

/// The cycle a degenerate result's reason blocks.
pub open spec fn reason_cycle(r: Reason) -> Cycle {
    match r {
        Reason::BlendTooLarge | Reason::TangentChain | Reason::VertexBlend => Cycle::BlendNetwork,
        Reason::DirectionNotNormal | Reason::EllipticRevolve => Cycle::Sweep,
        Reason::NotSolid => Cycle::Healing,
        Reason::TangentContact | Reason::NonManifold => Cycle::Itself("non-manifold"),
        Reason::BesideSingularity => Cycle::Itself("beside a singularity"),
        Reason::Empty | Reason::ZeroThickness => Cycle::Itself("no material"),
        Reason::NonFinite => Cycle::Itself("NonFinite"),
        Reason::NotPositive => Cycle::Itself("NotPositive"),
        Reason::NoEdges => Cycle::Itself("NoEdges"),
        Reason::RepeatedEdge => Cycle::Itself("RepeatedEdge"),
        Reason::EdgeNotInBody => Cycle::Itself("EdgeNotInBody"),
        Reason::NotProjectable => Cycle::Itself("NotProjectable"),
        Reason::DegenerateEdge => Cycle::Itself("DegenerateEdge"),
        Reason::ProjectionCollapses => Cycle::Itself("ProjectionCollapses"),
        Reason::NotPlanar => Cycle::Itself("NotPlanar"),
        Reason::OutOfDomain => Cycle::Itself("OutOfDomain"),
        Reason::Singular => Cycle::Itself("Singular"),
        Reason::ProfileCrossesAxis => Cycle::Itself("ProfileCrossesAxis"),
        Reason::AxisNotInProfilePlane => Cycle::Itself("AxisNotInProfilePlane"),
        Reason::AngleAboveTurn => Cycle::Itself("AngleAboveTurn"),
        Reason::SpindleTorus => Cycle::Itself("SpindleTorus"),
    }
}

/// The cycle an operation's refusal at a battery stage blocks, or `None`
/// for an internal fault: a kernel bug, never a count.
pub open spec fn op_cycle(stage: Stage, e: OpFailure) -> Option<Cycle> {
    match e {
        OpFailure::Unsupported { a, b } => Some(
            if a.nurbs || b.nurbs {
                Cycle::Nurbs
            } else if stage == Stage::Fillet {
                Cycle::BlendNetwork
            } else {
                Cycle::Itself("unsupported pair")
            },
        ),
        OpFailure::Degenerate { reason } => Some(reason_cycle(reason)),
        OpFailure::InvalidInput => Some(Cycle::Itself("InvalidInput")),
        OpFailure::Profile => Some(Cycle::Itself("Profile")),
        OpFailure::Tolerance => Some(Cycle::Itself("Tolerance")),
        OpFailure::NotFound => Some(Cycle::Itself("NotFound")),
        OpFailure::Internal { .. } => None,
    }
}

fn cycle_of_reason(r: Reason) -> (c: Cycle)
    ensures
        c == reason_cycle(r),
{
    match r {
        Reason::BlendTooLarge | Reason::TangentChain | Reason::VertexBlend => Cycle::BlendNetwork,
        Reason::DirectionNotNormal | Reason::EllipticRevolve => Cycle::Sweep,
        Reason::NotSolid => Cycle::Healing,
        Reason::TangentContact | Reason::NonManifold => Cycle::Itself("non-manifold"),
        Reason::BesideSingularity => Cycle::Itself("beside a singularity"),
        Reason::Empty | Reason::ZeroThickness => Cycle::Itself("no material"),
        Reason::NonFinite => Cycle::Itself("NonFinite"),
        Reason::NotPositive => Cycle::Itself("NotPositive"),
        Reason::NoEdges => Cycle::Itself("NoEdges"),
        Reason::RepeatedEdge => Cycle::Itself("RepeatedEdge"),
        Reason::EdgeNotInBody => Cycle::Itself("EdgeNotInBody"),
        Reason::NotProjectable => Cycle::Itself("NotProjectable"),
        Reason::DegenerateEdge => Cycle::Itself("DegenerateEdge"),
        Reason::ProjectionCollapses => Cycle::Itself("ProjectionCollapses"),
        Reason::NotPlanar => Cycle::Itself("NotPlanar"),
        Reason::OutOfDomain => Cycle::Itself("OutOfDomain"),
        Reason::Singular => Cycle::Itself("Singular"),
        Reason::ProfileCrossesAxis => Cycle::Itself("ProfileCrossesAxis"),
        Reason::AxisNotInProfilePlane => Cycle::Itself("AxisNotInProfilePlane"),
        Reason::AngleAboveTurn => Cycle::Itself("AngleAboveTurn"),
        Reason::SpindleTorus => Cycle::Itself("SpindleTorus"),
    }
}

/// The cycle an operation's refusal at a battery stage blocks, or `None`
/// for an internal fault: a kernel bug, never a count.
pub fn blocks_reason(stage: Stage, error: &OpFailure) -> (c: Option<Cycle>)
    ensures
        c == op_cycle(stage, *error),
{
    match error {
        OpFailure::Unsupported { a, b } => Some(
            if a.nurbs || b.nurbs {
                Cycle::Nurbs
            } else if stage == Stage::Fillet {
                Cycle::BlendNetwork
            } else {
                Cycle::Itself("unsupported pair")
            },
        ),
        OpFailure::Degenerate { reason } => Some(cycle_of_reason(*reason)),
        OpFailure::InvalidInput => Some(Cycle::Itself("InvalidInput")),
        OpFailure::Profile => Some(Cycle::Itself("Profile")),
        OpFailure::Tolerance => Some(Cycle::Itself("Tolerance")),
        OpFailure::NotFound => Some(Cycle::Itself("NotFound")),
        OpFailure::Internal { .. } => None,
    }
}

} // verus!

verus! {

/// Where a histogram cannot count a part: a refusal with no cycle
/// recorded, a stage that waits, or a part that waits.
#[derive(Debug, Clone, PartialEq, Eq)]
pub struct Uncounted {
    /// The part.
    pub part: String,
    /// What is missing.
    pub what: String,
}

impl Uncounted {
    /// What it says: `<part>: <what>`.
    pub fn message(&self) -> (s: String)
        ensures
            s@ == self.part@ + ": "@ + self.what@,
    {
        let mut out = chars_of(self.part.as_str());
        push_str(&mut out, ": ");
        push_str(&mut out, self.what.as_str());
        string_of(out.as_slice())
    }
}

} // verus!

verus! {

/// `v` after the additions `s` and then `a`.
proof fn lemma_apply_all_push(v: HistogramView, s: Seq<Addition>, a: Addition)
    ensures
        apply_all(v, s.push(a)) == apply(apply_all(v, s), a),
    decreases s.len(),
{
    if s.len() == 0 {
        assert(s.push(a)[0] == a);
        assert(s.push(a).drop_first() =~= Seq::<Addition>::empty());
        assert(apply_all(apply(v, a), Seq::<Addition>::empty()) == apply(v, a));
    } else {
        assert(s.push(a)[0] == s[0]);
        assert(s.push(a).drop_first() =~= s.drop_first().push(a));
        lemma_apply_all_push(apply(v, s[0]), s.drop_first(), a);
    }
}

/// `v` after the additions `s` and then `t`.
proof fn lemma_apply_all_concat(v: HistogramView, s: Seq<Addition>, t: Seq<Addition>)
    ensures
        apply_all(v, s + t) == apply_all(apply_all(v, s), t),
    decreases t.len(),
{
    if t.len() == 0 {
        assert(s + t =~= s);
    } else {
        lemma_apply_all_concat(v, s, t.drop_last());
        assert(s + t =~= (s + t.drop_last()).push(t.last()));
        assert(t =~= t.drop_last().push(t.last()));
        lemma_apply_all_push(v, s + t.drop_last(), t.last());
        lemma_apply_all_push(apply_all(v, s), t.drop_last(), t.last());
    }
}

/// The cycle `blocks` records for the stage named `stage`: its first
/// entry's.
pub open spec fn recorded_cycle(blocks: Seq<(String, String)>, stage: Seq<char>) -> Option<Seq<char>>
    decreases blocks.len(),
{
    if blocks.len() == 0 {
        None
    } else if blocks[0].0@ == stage {
        Some(blocks[0].1@)
    } else {
        recorded_cycle(blocks.drop_first(), stage)
    }
}

/// What counting stops at: the text of the `Uncounted`.
pub open spec fn no_cycle_text(at: Seq<char>, stage: Seq<char>) -> Seq<char> {
    at + " "@ + stage + " records no cycle"@
}

/// The additions of one battery stage of `part`'s solid `at`, and what
/// stops the count there, if anything does.
pub open spec fn stage_additions(
    part: Seq<char>,
    at: Seq<char>,
    name: Seq<char>,
    class: crate::battery::Class,
    blocks: Seq<(String, String)>,
) -> (Seq<Addition>, Option<Seq<char>>) {
    match Stage::spec_of_name(name) {
        None => (Seq::empty(), Some(at + ": no stage "@ + name)),
        Some(stage) => match class {
            crate::battery::Class::Agree => (seq![Addition::Class(part, "agree"@)], None),
            crate::battery::Class::BothRefuse => (seq![Addition::Class(part, "both-refuse"@)], None),
            crate::battery::Class::OracleRefuses => (seq![Addition::Class(part, "oracle-refuses"@)], None),
            crate::battery::Class::ArrisRefuses(why) => match recorded_cycle(blocks, name) {
                Some(c) => (
                    seq![Addition::Class(part, "arris-refuses"@), Addition::Refusal(part, stage, why@, c)],
                    None,
                ),
                None => (seq![Addition::Class(part, "arris-refuses"@)], Some(no_cycle_text(at, name))),
            },
            crate::battery::Class::WaitsOn(slug) => (Seq::empty(), Some(at + " "@ + name + " waits on "@ + slug@)),
        },
    }
}

/// The additions of the first `k` battery stages, stopping at the first
/// that stops the count.
pub open spec fn battery_additions(part: Seq<char>, s: crate::part::SolidRecord, k: int) -> (Seq<Addition>, Option<Seq<char>>)
    decreases k,
{
    if k <= 0 {
        (Seq::empty(), None)
    } else {
        let (adds, stop) = battery_additions(part, s, k - 1);
        if stop is Some {
            (adds, stop)
        } else {
            let (name, class) = s.battery@[k - 1];
            let (more, stop2) = stage_additions(part, crate::battery::key_text(s.id, s.instance), name@, class, s.blocks@);
            (adds + more, stop2)
        }
    }
}

/// The additions of one solid: read or refused, then its battery.
pub open spec fn solid_additions(part: Seq<char>, s: crate::part::SolidRecord) -> (Seq<Addition>, Option<Seq<char>>) {
    let at = crate::battery::key_text(s.id, s.instance);
    let head: (Seq<Addition>, Option<Seq<char>>) = match s.outcome {
        crate::part::Outcome::Refused(r) => match recorded_cycle(s.blocks@, "read"@) {
            Some(c) => (seq![Addition::Refusal(part, Stage::Read, r.kind@, c)], None),
            None => (Seq::empty(), Some(no_cycle_text(at, "read"@))),
        },
        crate::part::Outcome::Read => (seq![Addition::Read(part)], None),
    };
    if head.1 is Some {
        head
    } else {
        let (more, stop) = battery_additions(part, s, s.battery@.len() as int);
        (head.0 + more, stop)
    }
}

/// The additions of the first `k` solids, stopping at the first that
/// stops the count.
pub open spec fn solids_additions(part: Seq<char>, ss: Seq<crate::part::SolidRecord>, k: int) -> (Seq<Addition>, Option<Seq<char>>)
    decreases k,
{
    if k <= 0 {
        (Seq::empty(), None)
    } else {
        let (adds, stop) = solids_additions(part, ss, k - 1);
        if stop is Some {
            (adds, stop)
        } else {
            let (more, stop2) = solid_additions(part, ss[k - 1]);
            (adds + more, stop2)
        }
    }
}

/// The additions counting a part fixture makes, and what stops the count,
/// if anything does: a part that waits counts nothing.
pub open spec fn part_additions(f: crate::part::PartRecord) -> (Seq<Addition>, Option<Seq<char>>) {
    if f.waits_on@.len() > 0 {
        (Seq::empty(), Some("waits on "@ + f.waits_on@[0]@))
    } else {
        let (adds, stop) = solids_additions(f.name@, f.solids@, f.solids@.len() as int);
        (seq![Addition::Part(f.name@)] + adds, stop)
    }
}

/// An upper bound on the additions counting the solids `ss` makes.
pub open spec fn additions_bound(ss: Seq<crate::part::SolidRecord>) -> nat
    decreases ss.len(),
{
    if ss.len() == 0 {
        0
    } else {
        additions_bound(ss.drop_last()) + 1 + 2 * ss.last().battery@.len()
    }
}

impl Histogram {
    /// Room for `n` more of every count.
    pub closed spec fn has_room_n(&self, n: nat) -> bool {
        &&& self.read + self.refused + n < usize::MAX
        &&& self.stages + n < usize::MAX
        &&& self.counted + n < usize::MAX
    }

    /// Whether counting `fixture` stays within every count's range:
    /// [`Histogram::add_part`]'s precondition, computed.
    pub fn has_room_for_part(&self, fixture: &crate::part::PartRecord) -> (r: bool)
        ensures
            r == self.has_room_n(1 + additions_bound(fixture.solids@)),
    {
        let ss = &fixture.solids;
        let mut n: usize = 1;
        let mut i: usize = 0;
        while i < ss.len()
            invariant
                i <= ss@.len(),
                ss@ == fixture.solids@,
                n == 1 + additions_bound(ss@.take(i as int)),
            decreases ss@.len() - i,
        {
            proof {
                assert(ss@.take(i + 1).drop_last() =~= ss@.take(i as int));
            }
            let b = ss[i].battery.len();
            if b > (usize::MAX - 1) / 2 || n > usize::MAX - 1 - 2 * b {
                proof {
                    lemma_bound_prefix(ss@, i + 1);
                    assert(ss@.take(i + 1).last() == ss@[i as int]);
                    assert(additions_bound(ss@.take(i + 1)) == n + 2 * b);
                }
                return false;
            }
            n = n + 1 + 2 * b;
            i = i + 1;
        }
        assert(ss@.take(ss@.len() as int) =~= ss@);
        n < usize::MAX - self.read && self.refused < usize::MAX - self.read - n && n < usize::MAX - self.stages
            && n < usize::MAX - self.counted
    }

    fn record_of(blocks: &Vec<(String, String)>, stage: &str) -> (c: Option<String>)
        ensures
            match recorded_cycle(blocks@, stage@) {
                Some(x) => c matches Some(y) && y@ == x,
                None => c is None,
            },
    {
        let mut i: usize = 0;
        assert(blocks@.skip(0) =~= blocks@);
        while i < blocks.len()
            invariant
                i <= blocks@.len(),
                recorded_cycle(blocks@, stage@) == recorded_cycle(blocks@.skip(i as int), stage@),
            decreases blocks@.len() - i,
        {
            assert(blocks@.skip(i as int)[0] == blocks@[i as int]);
            assert(blocks@.skip(i as int).drop_first() =~= blocks@.skip(i + 1));
            if crate::text::same_text(blocks[i].0.as_str(), stage) {
                return Some(string_of(chars_of(blocks[i].1.as_str()).as_slice()));
            }
            i = i + 1;
        }
        assert(blocks@.skip(i as int) =~= Seq::<(String, String)>::empty());
        None
    }

    /// Counts one battery stage of `part`'s solid `at`: `Err` with what
    /// stops the count, where something does.
    fn add_stage(&mut self, part: &str, at: &str, name: &str, class: &crate::battery::Class, blocks: &Vec<(String, String)>) -> (r: Result<(), String>)
        requires
            old(self).wf(),
            old(self).tally().0 + 2 < usize::MAX,
            old(self).tally().1 + 2 < usize::MAX,
            old(self).tally().2 + 2 < usize::MAX,
        ensures
            final(self).wf(),
            final(self)@ == apply_all(old(self)@, stage_additions(part@, at@, name@, *class, blocks@).0),
            match stage_additions(part@, at@, name@, *class, blocks@).1 {
                None => r is Ok,
                Some(w) => r matches Err(e) && e@ == w,
            },
            final(self).tally().0 <= old(self).tally().0 + 2,
            final(self).tally().1 <= old(self).tally().1 + 2,
            final(self).tally().2 <= old(self).tally().2 + 2,
    {
        let ghost v0 = self@;
        assert(apply_all(v0, Seq::<Addition>::empty()) == v0);
        let stage = match Stage::of_name(name) {
            Some(s) => s,
            None => {
                let mut w = chars_of(at);
                push_str(&mut w, ": no stage ");
                push_str(&mut w, name);
                return Err(string_of(w.as_slice()));
            },
        };
        let class_name = match class {
            crate::battery::Class::Agree => "agree",
            crate::battery::Class::BothRefuse => "both-refuse",
            crate::battery::Class::OracleRefuses => "oracle-refuses",
            crate::battery::Class::ArrisRefuses(_) => "arris-refuses",
            crate::battery::Class::WaitsOn(slug) => {
                let mut w = chars_of(at);
                push_str(&mut w, " ");
                push_str(&mut w, name);
                push_str(&mut w, " waits on ");
                push_str(&mut w, slug.as_str());
                return Err(string_of(w.as_slice()));
            },
        };
        self.add_class(part, class_name);
        proof {
            lemma_apply_all_push(v0, Seq::<Addition>::empty(), Addition::Class(part@, class_name@));
            assert(Seq::<Addition>::empty().push(Addition::Class(part@, class_name@)) =~= seq![Addition::Class(part@, class_name@)]);
        }
        match class {
            crate::battery::Class::ArrisRefuses(why) => {
                match Self::record_of(blocks, name) {
                    Some(c) => {
                        self.add_refusal(part, stage, why.as_str(), c.as_str());
                        proof {
                            let a0 = Addition::Class(part@, class_name@);
                            let a1 = Addition::Refusal(part@, stage, why@, c@);
                            lemma_apply_all_push(v0, seq![a0], a1);
                            assert(seq![a0].push(a1) =~= seq![a0, a1]);
                        }
                        Ok(())
                    },
                    None => {
                        let mut w = chars_of(at);
                        push_str(&mut w, " ");
                        push_str(&mut w, name);
                        push_str(&mut w, " records no cycle");
                        Err(string_of(w.as_slice()))
                    },
                }
            },
            _ => Ok(()),
        }
    }

    /// Counts one solid of `part`: read or refused, then its battery;
    /// `Err` with what stops the count, where something does.
    fn add_solid(&mut self, part: &str, s: &crate::part::SolidRecord) -> (r: Result<(), String>)
        requires
            old(self).wf(),
            old(self).tally().0 + 1 + 2 * s.battery@.len() < usize::MAX,
            old(self).tally().1 + 1 + 2 * s.battery@.len() < usize::MAX,
            old(self).tally().2 + 1 + 2 * s.battery@.len() < usize::MAX,
        ensures
            final(self).wf(),
            final(self)@ == apply_all(old(self)@, solid_additions(part@, *s).0),
            match solid_additions(part@, *s).1 {
                None => r is Ok,
                Some(w) => r matches Err(e) && e@ == w,
            },
            final(self).tally().0 <= old(self).tally().0 + 1 + 2 * s.battery@.len(),
            final(self).tally().1 <= old(self).tally().1 + 1 + 2 * s.battery@.len(),
            final(self).tally().2 <= old(self).tally().2 + 1 + 2 * s.battery@.len(),
    {
        let ghost v0 = self@;
        let ghost t0 = self.tally();
        let at = crate::battery::key(s.id, s.instance);
        let ghost head: Seq<Addition>;
        match &s.outcome {
            crate::part::Outcome::Refused(r) => {
                match Self::record_of(&s.blocks, "read") {
                    Some(c) => {
                        self.add_refusal(part, Stage::Read, r.kind.as_str(), c.as_str());
                        proof {
                            head = seq![Addition::Refusal(part@, Stage::Read, r.kind@, c@)];
                        }
                    },
                    None => {
                        let mut w = chars_of(at.as_str());
                        push_str(&mut w, " ");
                        push_str(&mut w, "read");
                        push_str(&mut w, " records no cycle");
                        assert(apply_all(v0, Seq::<Addition>::empty()) == v0);
                        return Err(string_of(w.as_slice()));
                    },
                }
            },
            crate::part::Outcome::Read => {
                self.add_read(part);
                proof {
                    head = seq![Addition::Read(part@)];
                }
            },
        }
        proof {
            lemma_apply_all_push(v0, Seq::<Addition>::empty(), head[0]);
            assert(Seq::<Addition>::empty().push(head[0]) =~= head);
        }
        let ghost mut adds: Seq<Addition> = Seq::empty();
        let ghost v1 = self@;
        let mut k: usize = 0;
        assert(apply_all(v1, adds) == v1);
        assert(solid_additions(part@, *s) == (
            head + battery_additions(part@, *s, s.battery@.len() as int).0,
            battery_additions(part@, *s, s.battery@.len() as int).1,
        ));
        while k < s.battery.len()
            invariant
                k <= s.battery@.len(),
                v0 == old(self)@,
                t0 == old(self).tally(),
                solid_additions(part@, *s) == (
                    head + battery_additions(part@, *s, s.battery@.len() as int).0,
                    battery_additions(part@, *s, s.battery@.len() as int).1,
                ),
                self.wf(),
                head.len() == 1,
                v1 == apply_all(v0, head),
                battery_additions(part@, *s, k as int) == (adds, None::<Seq<char>>),
                self@ == apply_all(v1, adds),
                at@ == crate::battery::key_text(s.id, s.instance),
                self.tally().0 <= t0.0 + 1 + 2 * k,
                self.tally().1 <= t0.1 + 1 + 2 * k,
                self.tally().2 <= t0.2 + 1 + 2 * k,
                t0.0 + 1 + 2 * s.battery@.len() < usize::MAX,
                t0.1 + 1 + 2 * s.battery@.len() < usize::MAX,
                t0.2 + 1 + 2 * s.battery@.len() < usize::MAX,
            decreases s.battery@.len() - k,
        {
            let (name, class) = (&s.battery[k].0, &s.battery[k].1);
            let ghost vk = self@;
            let step = self.add_stage(part, at.as_str(), name.as_str(), class, &s.blocks);
            let ghost more = stage_additions(part@, at@, name@, *class, s.blocks@).0;
            proof {
                lemma_apply_all_concat(v1, adds, more);
                lemma_apply_all_concat(v0, head, adds + more);
                assert(head + (adds + more) =~= (head + adds) + more);
            }
            match step {
                Err(w) => {
                    proof {
                        lemma_apply_all_concat(v0, head, adds + more);
                        assert(battery_additions(part@, *s, k + 1) == (adds + more, Some(w@)));
                        lemma_battery_stops(part@, *s, k + 1, s.battery@.len() as int);
                    }
                    return Err(w);
                },
                Ok(()) => {},
            }
            proof {
                adds = adds + more;
            }
            k = k + 1;
        }
        proof {
            lemma_apply_all_concat(v0, head, adds);
        }
        Ok(())
    }

    /// Counts a part fixture from what it records: each solid read or
    /// refused, each battery stage's class, and each refusal under the
    /// cycle it records. `Err` for a part or a stage that waits on a fix,
    /// a stage that is none, and a refusal with no cycle recorded — what
    /// was counted before it stays counted.
    pub fn add_part(&mut self, fixture: &crate::part::PartRecord) -> (r: Result<(), Uncounted>)
        requires
            old(self).wf(),
            old(self).has_room_n(1 + additions_bound(fixture.solids@)),
        ensures
            final(self).wf(),
            final(self)@ == apply_all(old(self)@, part_additions(*fixture).0),
            match part_additions(*fixture).1 {
                None => r is Ok,
                Some(w) => r matches Err(u) && u.part@ == fixture.name@ && u.what@ == w,
            },
    {
        let ghost v0 = self@;
        let part = fixture.name.as_str();
        if fixture.waits_on.len() > 0 {
            let mut w = chars_of("waits on ");
            push_str(&mut w, fixture.waits_on[0].as_str());
            assert(apply_all(v0, Seq::<Addition>::empty()) == v0);
            return Err(Uncounted { part: string_of(chars_of(part).as_slice()), what: string_of(w.as_slice()) });
        }
        self.add(part);
        proof {
            lemma_apply_all_push(v0, Seq::<Addition>::empty(), Addition::Part(part@));
            assert(Seq::<Addition>::empty().push(Addition::Part(part@)) =~= seq![Addition::Part(part@)]);
        }
        let ghost head = seq![Addition::Part(part@)];
        let ghost v1 = self@;
        let ghost t0 = self.tally();
        let ghost mut adds: Seq<Addition> = Seq::empty();
        let ghost ss = fixture.solids@;
        let mut k: usize = 0;
        assert(apply_all(v1, adds) == v1);
        while k < fixture.solids.len()
            invariant
                k <= ss.len(),
                ss == fixture.solids@,
                fixture.waits_on@.len() == 0,
                v0 == old(self)@,
                part@ == fixture.name@,
                self.wf(),
                v1 == apply_all(v0, head),
                head == seq![Addition::Part(part@)],
                solids_additions(part@, ss, k as int) == (adds, None::<Seq<char>>),
                self@ == apply_all(v1, adds),
                self.tally().0 <= t0.0 + additions_bound(ss.take(k as int)),
                self.tally().1 <= t0.1 + additions_bound(ss.take(k as int)),
                self.tally().2 <= t0.2 + additions_bound(ss.take(k as int)),
                t0.0 + 1 + additions_bound(ss) < usize::MAX,
                t0.1 + 1 + additions_bound(ss) < usize::MAX,
                t0.2 + 1 + additions_bound(ss) < usize::MAX,
            decreases ss.len() - k,
        {
            proof {
                lemma_bound_prefix(ss, k + 1);
                assert(ss.take(k + 1).drop_last() =~= ss.take(k as int));
                assert(ss.take(k + 1).last() == ss[k as int]);
            }
            let step = self.add_solid(part, &fixture.solids[k]);
            let ghost more = solid_additions(part@, ss[k as int]).0;
            proof {
                lemma_apply_all_concat(v1, adds, more);
                lemma_apply_all_concat(v0, head, adds + more);
            }
            match step {
                Err(w) => {
                    proof {
                        assert(solids_additions(part@, ss, k + 1) == (adds + more, Some(w@)));
                        lemma_solids_stop(part@, ss, k + 1, ss.len() as int);
                        assert(head + (adds + more) =~= seq![Addition::Part(part@)] + (adds + more));
                    }
                    return Err(Uncounted { part: string_of(chars_of(part).as_slice()), what: w });
                },
                Ok(()) => {},
            }
            proof {
                adds = adds + more;
            }
            k = k + 1;
        }
        proof {
            lemma_apply_all_concat(v0, head, adds);
            assert(ss.take(k as int) =~= ss);
        }
        Ok(())
    }
}

/// Once a battery stage stops the count, no later stage adds anything.
proof fn lemma_battery_stops(part: Seq<char>, s: crate::part::SolidRecord, j: int, n: int)
    requires
        0 <= j <= n,
        battery_additions(part, s, j).1 is Some,
    ensures
        battery_additions(part, s, n) == battery_additions(part, s, j),
    decreases n - j,
{
    if j < n {
        lemma_battery_stops(part, s, j, n - 1);
    }
}

/// Once a solid stops the count, no later solid adds anything.
proof fn lemma_solids_stop(part: Seq<char>, ss: Seq<crate::part::SolidRecord>, j: int, n: int)
    requires
        0 <= j <= n,
        solids_additions(part, ss, j).1 is Some,
    ensures
        solids_additions(part, ss, n) == solids_additions(part, ss, j),
    decreases n - j,
{
    if j < n {
        lemma_solids_stop(part, ss, j, n - 1);
    }
}

/// Counting two part fixtures in either order prints the same
/// histogram, byte for byte.
pub proof fn lemma_parts_commute(v: HistogramView, f1: crate::part::PartRecord, f2: crate::part::PartRecord)
    ensures
        markdown_text(apply_all(apply_all(v, part_additions(f1).0), part_additions(f2).0))
            == markdown_text(apply_all(apply_all(v, part_additions(f2).0), part_additions(f1).0)),
{
    let (a, b) = (part_additions(f1).0, part_additions(f2).0);
    lemma_apply_all_concat(v, a, b);
    lemma_apply_all_concat(v, b, a);
    vstd::seq_lib::lemma_seq_union_to_multiset_commutative(a, b);
    lemma_markdown_order_independent(v, a + b, b + a);
}

/// The bound of a prefix is at most the bound of the whole.
proof fn lemma_bound_prefix(ss: Seq<crate::part::SolidRecord>, k: int)
    requires
        0 <= k <= ss.len(),
    ensures
        additions_bound(ss.take(k)) <= additions_bound(ss),
    decreases ss.len() - k,
{
    if k < ss.len() {
        lemma_bound_prefix(ss, k + 1);
        assert(ss.take(k + 1).drop_last() =~= ss.take(k));
    } else {
        assert(ss.take(k) =~= ss);
    }
}

} // verus!

verus! {

impl Default for Histogram {
    /// An empty histogram: [`Histogram::new`].
    fn default() -> (h: Histogram)
        ensures
            h.wf(),
            h.has_room_spec(),
            h.tally() == (0int, 0int, 0int),
            h@ == empty_view(),
    {
        Histogram::new()
    }
}

/// The view of an empty histogram.
pub open spec fn empty_view() -> HistogramView {
    HistogramView {
        parts: Set::empty(),
        read: 0,
        refused: 0,
        classes: Map::empty(),
        blocked: Map::empty(),
        refusals: Map::empty(),
    }
}

/// The parts `cycle` blocks in `v`.
pub open spec fn parts_under(v: HistogramView, cycle: Seq<char>) -> Set<Seq<char>> {
    Set::new(|p: Seq<char>| v.blocked.contains_key((cycle, p)))
}

/// The parts `cycle` first blocks at `stage` in `v`.
pub open spec fn parts_first_at(v: HistogramView, cycle: Seq<char>, stage: Stage) -> Set<Seq<char>> {
    Set::new(|p: Seq<char>| v.blocked.contains_key((cycle, p)) && v.blocked[(cycle, p)] == stage)
}

/// The counts of strictly sorted blocked entries are the sizes of the
/// sets of parts their map holds.
proof fn lemma_counts_are_sizes(s: Seq<BlockedEntry>, cycle: Seq<char>, stage: Stage)
    requires
        strictly_sorted::<(Vec<char>, Vec<char>), Stage>(s),
    ensures
        parts_under(HistogramView { blocked: map_of(s), ..empty_view() }, cycle).finite(),
        blocked_count(s, cycle) == parts_under(HistogramView { blocked: map_of(s), ..empty_view() }, cycle).len(),
        parts_first_at(HistogramView { blocked: map_of(s), ..empty_view() }, cycle, stage).finite(),
        blocked_count_at(s, cycle, stage) == parts_first_at(
            HistogramView { blocked: map_of(s), ..empty_view() },
            cycle,
            stage,
        ).len(),
    decreases s.len(),
{
    let vs = HistogramView { blocked: map_of(s), ..empty_view() };
    if s.len() == 0 {
        assert(parts_under(vs, cycle) =~= Set::<Seq<char>>::empty());
        assert(parts_first_at(vs, cycle, stage) =~= Set::<Seq<char>>::empty());
    } else {
        let t = s.drop_last();
        assert(strictly_sorted::<(Vec<char>, Vec<char>), Stage>(t));
        lemma_counts_are_sizes(t, cycle, stage);
        lemma_map_of::<(Vec<char>, Vec<char>), Stage>(t);
        let last = s.last();
        let vt = HistogramView { blocked: map_of(t), ..empty_view() };
        assert(!map_of(t).contains_key(last.0)) by {
            if map_of(t).contains_key(last.0) {
                let i = choose|i: int| 0 <= i < t.len() && t[i].0 == last.0;
                crate::sorted::lemma_distinct::<(Vec<char>, Vec<char>), Stage>(s, i, s.len() - 1);
            }
        }
        if last.0.0 == cycle {
            assert(parts_under(vs, cycle) =~= parts_under(vt, cycle).insert(last.0.1));
            assert(!parts_under(vt, cycle).contains(last.0.1));
            if last.1 == stage {
                assert(parts_first_at(vs, cycle, stage) =~= parts_first_at(vt, cycle, stage).insert(last.0.1));
                assert(!parts_first_at(vt, cycle, stage).contains(last.0.1));
            } else {
                assert(parts_first_at(vs, cycle, stage) =~= parts_first_at(vt, cycle, stage));
            }
        } else {
            assert(parts_under(vs, cycle) =~= parts_under(vt, cycle));
            assert(parts_first_at(vs, cycle, stage) =~= parts_first_at(vt, cycle, stage));
        }
    }
}

impl Histogram {
    /// A histogram's set of parts is finite, and its summary's stage
    /// total is its running stage count.
    pub proof fn lemma_finite_parts(&self)
        requires
            self.wf(),
        ensures
            self@.parts.finite(),
            sum_counts(class_entries(self@)) == self.tally().1,
    {
        self.lemma_entries();
    }

    /// How many parts a cycle blocks is the number of distinct parts it
    /// blocks; and a row's count at a stage is the number of those it
    /// first blocks there.
    pub proof fn lemma_parts_blocked(&self, cycle: Seq<char>, stage: Stage)
        requires
            self.wf(),
        ensures
            parts_under(self@, cycle).finite(),
            parts_blocked_of(self@, cycle) == parts_under(self@, cycle).len(),
            parts_first_at(self@, cycle, stage).finite(),
            blocked_count_at(blocked_entries(self@), cycle, stage) == parts_first_at(self@, cycle, stage).len(),
    {
        self.lemma_entries();
        let s = entries_view(self.blocked@);
        lemma_counts_are_sizes(s, cycle, stage);
        assert(parts_under(self@, cycle) =~= parts_under(HistogramView { blocked: map_of(s), ..empty_view() }, cycle));
        assert(parts_first_at(self@, cycle, stage) =~= parts_first_at(
            HistogramView { blocked: map_of(s), ..empty_view() },
            cycle,
            stage,
        ));
    }
}

/// Counting a part: once is as twice, and the part count grows by one
/// exactly when the part is new.
pub proof fn lemma_part_count(v: HistogramView, part: Seq<char>)
    requires
        v.parts.finite(),
    ensures
        with_part(with_part(v, part), part) == with_part(v, part),
        with_part(v, part).parts.finite(),
        with_part(v, part).parts.len() == v.parts.len() + if v.parts.contains(part) { 0int } else { 1int },
{
    assert(with_part(with_part(v, part), part).parts =~= with_part(v, part).parts);
}

/// What each addition does to the summary's figures: parts, solids read
/// and refused, and the count of each class.
pub proof fn lemma_summary_figures(v: HistogramView, part: Seq<char>, stage: Stage, name: Seq<char>, cycle: Seq<char>, class: Seq<char>, other: Seq<char>)
    requires
        v.parts.finite(),
        other != class,
        count_of(v.classes, class) < usize::MAX,
    ensures
        with_read(v, part).read == v.read + 1,
        with_read(v, part).refused == v.refused,
        with_read(v, part).classes == v.classes,
        with_read(v, part).blocked == v.blocked,
        with_read(v, part).refusals == v.refusals,
        with_read(v, part).parts == with_part(v, part).parts,
        with_class(v, part, class).read == v.read,
        with_class(v, part, class).refused == v.refused,
        class_count(with_class(v, part, class), class) == class_count(v, class) + 1,
        class_count(with_class(v, part, class), other) == class_count(v, other),
        with_class(v, part, class).blocked == v.blocked,
        with_class(v, part, class).refusals == v.refusals,
        with_class(v, part, class).parts == with_part(v, part).parts,
        with_refusal(v, part, stage, name, cycle).read == v.read,
        with_refusal(v, part, stage, name, cycle).refused == v.refused + if stage == Stage::Read { 1int } else { 0int },
        with_refusal(v, part, stage, name, cycle).classes == v.classes,
        with_refusal(v, part, stage, name, cycle).parts == with_part(v, part).parts,
        with_part(v, part).parts.len() == v.parts.len() + if v.parts.contains(part) { 0int } else { 1int },
{
    lemma_part_count(v, part);
}

/// Two refusals in either order leave the same histogram, and print the
/// same text.
pub proof fn lemma_refusals_commute(
    v: HistogramView,
    p1: Seq<char>, s1: Stage, n1: Seq<char>, c1: Seq<char>,
    p2: Seq<char>, s2: Stage, n2: Seq<char>, c2: Seq<char>,
)
    ensures
        with_refusal(with_refusal(v, p1, s1, n1, c1), p2, s2, n2, c2) == with_refusal(
            with_refusal(v, p2, s2, n2, c2),
            p1,
            s1,
            n1,
            c1,
        ),
        markdown_text(with_refusal(with_refusal(v, p1, s1, n1, c1), p2, s2, n2, c2)) == markdown_text(
            with_refusal(with_refusal(v, p2, s2, n2, c2), p1, s1, n1, c1),
        ),
{
    lemma_additions_commute(v, Addition::Refusal(p1, s1, n1, c1), Addition::Refusal(p2, s2, n2, c2));
}

/// A part refused twice under one cycle in an empty histogram is one
/// part blocked, under the earlier of the two stages only.
pub proof fn lemma_one_part_two_refusals(
    p: Seq<char>, s1: Stage, n1: Seq<char>, s2: Stage, n2: Seq<char>, cycle: Seq<char>, stage: Stage,
)
    ensures
        ({
            let v = with_refusal(with_refusal(empty_view(), p, s1, n1, cycle), p, s2, n2, cycle);
            &&& v.blocked[(cycle, p)] == first_of(s1, s2)
            &&& parts_under(v, cycle) == set![p]
            &&& parts_first_at(v, cycle, stage) == if stage == first_of(s1, s2) { set![p] } else { Set::empty() }
        }),
{
    let v = with_refusal(with_refusal(empty_view(), p, s1, n1, cycle), p, s2, n2, cycle);
    assert(parts_under(v, cycle) =~= set![p]);
    assert(parts_first_at(v, cycle, stage) =~= if stage == first_of(s1, s2) { set![p] } else { Set::empty() });
}

/// Whether `a` is a refusal of `part` under `cycle`.
pub open spec fn refuses_under(a: Addition, part: Seq<char>, cycle: Seq<char>) -> bool {
    match a {
        Addition::Refusal(q, _, _, c) => q == part && c == cycle,
        _ => false,
    }
}

/// The parts `cycle` blocks after additions `s`: those it blocked, and
/// every part a refusal of `s` under it names.
pub proof fn lemma_blocked_after(v: HistogramView, s: Seq<Addition>, cycle: Seq<char>, p: Seq<char>)
    ensures
        parts_under(apply_all(v, s), cycle).contains(p) <==> (parts_under(v, cycle).contains(p) || exists|i: int|
            0 <= i < s.len() && refuses_under(#[trigger] s[i], p, cycle)),
    decreases s.len(),
{
    if s.len() > 0 {
        let w = apply(v, s[0]);
        let t = s.drop_first();
        lemma_blocked_after(w, t, cycle, p);
        if exists|i: int| 0 <= i < s.len() && refuses_under(#[trigger] s[i], p, cycle) {
            let i = choose|i: int| 0 <= i < s.len() && refuses_under(#[trigger] s[i], p, cycle);
            if i > 0 {
                assert(t[i - 1] == s[i]);
            }
        }
        if exists|i: int| 0 <= i < t.len() && refuses_under(#[trigger] t[i], p, cycle) {
            let i = choose|i: int| 0 <= i < t.len() && refuses_under(#[trigger] t[i], p, cycle);
            assert(s[i + 1] == t[i]);
        }
    }
}

/// The additions one read at a time of `n` solids of `part`.
pub open spec fn read_additions(part: Seq<char>, n: nat) -> Seq<Addition> {
    Seq::new(n, |i: int| Addition::Read(part))
}

/// The additions of a stage of `part` at each class of `cs`.
pub open spec fn class_additions(part: Seq<char>, cs: Seq<Seq<char>>) -> Seq<Addition> {
    cs.map_values(|c: Seq<char>| Addition::Class(part, c))
}

/// The additions of each refusal of `rs` of `part`, an unknown stage a
/// read's.
pub open spec fn refusal_additions(part: Seq<char>, rs: Seq<(Seq<char>, Seq<char>, Seq<char>)>) -> Seq<Addition> {
    rs.map_values(|r: (Seq<char>, Seq<char>, Seq<char>)| Addition::Refusal(part, stage_or_read(r.0), r.1, r.2))
}

/// The calls counting a report makes: the part, a read per solid read,
/// a class per battery stage, a refusal per refusal counted.
pub open spec fn report_additions(r: crate::survey::Report) -> Seq<Addition> {
    seq![Addition::Part(r.part@)] + read_additions(r.part@, r.read as nat) + class_additions(
        r.part@,
        report_classes(r),
    ) + refusal_additions(r.part@, report_refusals(r))
}

proof fn lemma_reads(w: HistogramView, part: Seq<char>, n: nat)
    requires
        w.parts.contains(part),
    ensures
        apply_all(w, read_additions(part, n)) == (HistogramView { read: w.read + n, ..w }),
    decreases n,
{
    if n == 0 {
        assert(read_additions(part, 0) =~= Seq::<Addition>::empty());
        assert((HistogramView { read: w.read + 0, ..w }) == w);
    } else {
        lemma_reads(w, part, (n - 1) as nat);
        assert(read_additions(part, n) =~= read_additions(part, (n - 1) as nat).push(Addition::Read(part)));
        lemma_apply_all_push(w, read_additions(part, (n - 1) as nat), Addition::Read(part));
        let u = HistogramView { read: w.read + (n - 1) as nat, ..w };
        assert(u.parts.insert(part) =~= u.parts);
    }
}

proof fn lemma_classes(w: HistogramView, part: Seq<char>, cs: Seq<Seq<char>>)
    ensures
        apply_all(w, class_additions(part, cs)) == with_classes(w, part, cs),
    decreases cs.len(),
{
    if cs.len() == 0 {
        assert(class_additions(part, cs) =~= Seq::<Addition>::empty());
    } else {
        lemma_classes(w, part, cs.drop_last());
        assert(class_additions(part, cs) =~= class_additions(part, cs.drop_last()).push(Addition::Class(part, cs.last())));
        lemma_apply_all_push(w, class_additions(part, cs.drop_last()), Addition::Class(part, cs.last()));
    }
}

proof fn lemma_refusals(w: HistogramView, part: Seq<char>, rs: Seq<(Seq<char>, Seq<char>, Seq<char>)>)
    ensures
        apply_all(w, refusal_additions(part, rs)) == with_refusals(w, part, rs),
    decreases rs.len(),
{
    if rs.len() == 0 {
        assert(refusal_additions(part, rs) =~= Seq::<Addition>::empty());
    } else {
        let r = rs.last();
        let a = Addition::Refusal(part, stage_or_read(r.0), r.1, r.2);
        lemma_refusals(w, part, rs.drop_last());
        assert(refusal_additions(part, rs) =~= refusal_additions(part, rs.drop_last()).push(a));
        lemma_apply_all_push(w, refusal_additions(part, rs.drop_last()), a);
    }
}

/// Counting a report is the calls it stands for, in order: the part
/// added, a read per solid read, a class per battery stage, and each
/// refusal under its stage — an unknown stage name a read's.
pub proof fn lemma_report_is_its_calls(v: HistogramView, r: crate::survey::Report)
    ensures
        with_report(v, r) == apply_all(v, report_additions(r)),
{
    let p = r.part@;
    let head = seq![Addition::Part(p)];
    let reads = read_additions(p, r.read as nat);
    let cls = class_additions(p, report_classes(r));
    let refs = refusal_additions(p, report_refusals(r));
    lemma_apply_all_push(v, Seq::<Addition>::empty(), Addition::Part(p));
    assert(Seq::<Addition>::empty().push(Addition::Part(p)) =~= head);
    assert(apply_all(v, Seq::<Addition>::empty()) == v);
    let w = with_part(v, p);
    lemma_reads(w, p, r.read as nat);
    lemma_apply_all_concat(v, head, reads);
    let u = HistogramView { read: w.read + r.read as nat, ..w };
    lemma_classes(u, p, report_classes(r));
    lemma_apply_all_concat(v, head + reads, cls);
    lemma_refusals(with_classes(u, p, report_classes(r)), p, report_refusals(r));
    lemma_apply_all_concat(v, head + reads + cls, refs);
}

/// The parts the refusals of `s` under `cycle` name.
pub open spec fn refused_parts(s: Seq<Addition>, cycle: Seq<char>) -> Set<Seq<char>> {
    Set::new(|p: Seq<char>| exists|i: int| 0 <= i < s.len() && refuses_under(#[trigger] s[i], p, cycle))
}

/// A histogram made from empty by the calls `s` counts, for each cycle,
/// the distinct parts its refusals name: none for a cycle no refusal
/// names.
pub proof fn lemma_parts_blocked_after(h: Histogram, s: Seq<Addition>, cycle: Seq<char>, stage: Stage)
    requires
        h.wf(),
        h@ == apply_all(empty_view(), s),
    ensures
        refused_parts(s, cycle).finite(),
        parts_blocked_of(h@, cycle) == refused_parts(s, cycle).len(),
{
    h.lemma_parts_blocked(cycle, stage);
    assert forall|p: Seq<char>| #[trigger] parts_under(h@, cycle).contains(p) <==> refused_parts(s, cycle).contains(p) by {
        lemma_blocked_after(empty_view(), s, cycle, p);
    }
    assert(parts_under(h@, cycle) =~= refused_parts(s, cycle));
}

/// Two histograms made from empty by the same calls, in any order, are
/// the same histogram and print the same text, byte for byte.
pub proof fn lemma_same_calls_same_print(h1: Histogram, h2: Histogram, s1: Seq<Addition>, s2: Seq<Addition>)
    requires
        h1@ == apply_all(empty_view(), s1),
        h2@ == apply_all(empty_view(), s2),
        s1.to_multiset() == s2.to_multiset(),
    ensures
        h1@ == h2@,
        markdown_text(h1@) == markdown_text(h2@),
{
    lemma_order_independent(empty_view(), s1, s2);
}

/// How many of the additions `s` are battery stages of class `class`.
pub open spec fn classes_added(s: Seq<Addition>, class: Seq<char>) -> nat
    decreases s.len(),
{
    if s.len() == 0 {
        0
    } else {
        (if s[0] matches Addition::Class(_, c) && c == class {
            1nat
        } else {
            0nat
        }) + classes_added(s.drop_first(), class)
    }
}

/// The summary line up to its battery-stage counts: parts, solids read
/// and refused, and the battery stages in all.
pub open spec fn summary_head(v: HistogramView) -> Seq<char> {
    decimal(v.parts.len()) + " parts, "@ + decimal(v.read + v.refused) + " solids: "@ + decimal(v.read)
        + " read, "@ + decimal(v.refused) + " refused. "@ + decimal(sum_counts(class_entries(v)))
        + " battery stages: "@
}

/// The additions `s` change the count of each class by the battery
/// stages of that class among them, and by nothing else.
proof fn lemma_class_count_after(v: HistogramView, s: Seq<Addition>, class: Seq<char>)
    requires
        class_count(v, class) + s.len() < usize::MAX,
    ensures
        class_count(apply_all(v, s), class) == class_count(v, class) + classes_added(s, class),
    decreases s.len(),
{
    if s.len() > 0 {
        let w = apply(v, s[0]);
        match s[0] {
            Addition::Class(p, c) => {
                if c != class {
                    assert(class_count(w, class) == class_count(v, class));
                }
            },
            _ => {},
        }
        lemma_class_count_after(w, s.drop_first(), class);
    }
}

/// The summary line of a histogram made by the additions `s` counts the
/// battery stages they add by class: its "agree", "both refuse", "Open
/// CASCADE refuses" and "Arris refuses" figures are the numbers of
/// stages added with class `agree`, `both-refuse`, `oracle-refuses` and
/// `arris-refuses`, in that order.
pub proof fn lemma_summary_counts_classes(s: Seq<Addition>)
    requires
        s.len() < usize::MAX,
    ensures
        summary(apply_all(empty_view(), s)) == summary_head(apply_all(empty_view(), s))
            + decimal(classes_added(s, "agree"@)) + " agree, "@
            + decimal(classes_added(s, "both-refuse"@)) + " both refuse, "@
            + decimal(classes_added(s, "oracle-refuses"@)) + " Open CASCADE refuses, "@
            + decimal(classes_added(s, "arris-refuses"@)) + " Arris refuses.\n"@,
{
    let v = apply_all(empty_view(), s);
    lemma_class_count_after(empty_view(), s, "agree"@);
    lemma_class_count_after(empty_view(), s, "both-refuse"@);
    lemma_class_count_after(empty_view(), s, "oracle-refuses"@);
    lemma_class_count_after(empty_view(), s, "arris-refuses"@);
    assert(summary(v) =~= summary_head(v) + decimal(classes_added(s, "agree"@)) + " agree, "@
        + decimal(classes_added(s, "both-refuse"@)) + " both refuse, "@
        + decimal(classes_added(s, "oracle-refuses"@)) + " Open CASCADE refuses, "@
        + decimal(classes_added(s, "arris-refuses"@)) + " Arris refuses.\n"@);
}

} // verus!
