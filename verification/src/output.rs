use vstd::prelude::*;
use crate::geometry::{fits_i32, Point, Rect, Size};
use crate::output_id::OutputId;
use crate::text::chars_of;

verus! {

/// How an output's content is rotated or mirrored.
#[derive(Clone, Copy, Debug, PartialEq, Eq, Structural)]
pub enum Transform {
    Normal,
    Rotate90,
    Rotate180,
    Rotate270,
    Flipped,
    Flipped90,
    Flipped180,
    Flipped270,
}

/// The name the compositor's debug output gives a transform.
pub open spec fn transform_name(t: Transform) -> Seq<char> {
    match t {
        Transform::Normal => "Normal"@,
        Transform::Rotate90 => "_90"@,
        Transform::Rotate180 => "_180"@,
        Transform::Rotate270 => "_270"@,
        Transform::Flipped => "Flipped"@,
        Transform::Flipped90 => "Flipped90"@,
        Transform::Flipped180 => "Flipped180"@,
        Transform::Flipped270 => "Flipped270"@,
    }
}

impl Transform {
    /// The transform's name as the compositor's debug output writes it.
    pub fn name(&self) -> (r: String)
        ensures
            r@ == transform_name(*self),
    {
        match self {
            Transform::Normal => "Normal".to_owned(),
            Transform::Rotate90 => "_90".to_owned(),
            Transform::Rotate180 => "_180".to_owned(),
            Transform::Rotate270 => "_270".to_owned(),
            Transform::Flipped => "Flipped".to_owned(),
            Transform::Flipped90 => "Flipped90".to_owned(),
            Transform::Flipped180 => "Flipped180".to_owned(),
            Transform::Flipped270 => "Flipped270".to_owned(),
        }
    }
}

/// What is known of one output.
#[derive(Debug)]
pub struct OutputState {
    pub id: OutputId,
    pub name: String,
    pub make: String,
    pub model: String,
    pub size: Size,
    pub physical_size: Option<(i32, i32)>,
    pub position: Point,
    /// The IEEE-754 bits of the scale factor; the library only stores it.
    pub scale_bits: u64,
    pub transform: Transform,
    pub refresh_rate_mhz: Option<u32>,
    pub enabled: bool,
    pub primary: bool,
    pub active_workspace: u32,
}

/// The bits of the scale factor 1.0.
pub const UNIT_SCALE_BITS: u64 = 0x3FF0_0000_0000_0000;

impl OutputState {
    /// A new enabled output at the origin, with scale 1 and no transform.
    pub fn new(id: OutputId, name: String, size: Size) -> (o: OutputState)
        ensures
            o.id == id,
            o.name@ == name@,
            o.make@.len() == 0,
            o.model@.len() == 0,
            o.size == size,
            o.physical_size is None,
            o.position == (Point { x: 0, y: 0 }),
            o.scale_bits == UNIT_SCALE_BITS,
            o.transform == Transform::Normal,
            o.refresh_rate_mhz is None,
            o.enabled,
            !o.primary,
            o.active_workspace == 1,
    {
        OutputState {
            id,
            name,
            make: String::new(),
            model: String::new(),
            size,
            physical_size: None,
            position: Point { x: 0, y: 0 },
            scale_bits: UNIT_SCALE_BITS,
            transform: Transform::Normal,
            refresh_rate_mhz: None,
            enabled: true,
            primary: false,
            active_workspace: 1,
        }
    }

    /// The output's place and size in the global space.
    pub fn geometry(&self) -> (r: Rect)
        ensures
            r.loc == self.position,
            r.size == self.size,
    {
        Rect { loc: self.position, size: self.size }
    }

    pub fn set_position(&mut self, x: i32, y: i32)
        ensures
            final(self).position == (Point { x, y }),
            final(self).id == old(self).id,
            final(self).name == old(self).name,
            final(self).size == old(self).size,
    {
        self.position = Point { x, y };
    }

    pub fn set_transform(&mut self, transform: Transform)
        ensures
            final(self).transform == transform,
            final(self).id == old(self).id,
            final(self).name == old(self).name,
            final(self).size == old(self).size,
            final(self).position == old(self).position,
    {
        self.transform = transform;
    }
}

/// Output `a` at place `i` comes before output `b` at place `j` when sorted
/// top to bottom, then left to right; equal positions keep their places.
pub open spec fn precedes(a: OutputState, i: int, b: OutputState, j: int) -> bool {
    ||| a.position.y < b.position.y
    ||| (a.position.y == b.position.y && a.position.x < b.position.x)
    ||| (a.position.y == b.position.y && a.position.x == b.position.x && i < j)
}

/// How many of the first `n` outputs of `s` come before output `i`.
pub open spec fn count_before(s: Seq<OutputState>, i: int, n: int) -> nat
    decreases n,
{
    if n <= 0 {
        0
    } else {
        count_before(s, i, n - 1) + if precedes(s[n - 1], n - 1, s[i], i) {
            1nat
        } else {
            0nat
        }
    }
}

/// Where output `i` of `s` stands once the outputs are sorted.
pub open spec fn rank(s: Seq<OutputState>, i: int) -> nat {
    count_before(s, i, s.len() as int)
}

/// The summed widths of the first `n` outputs of `s` that come before output `i`.
pub open spec fn width_before(s: Seq<OutputState>, i: int, n: int) -> int
    decreases n,
{
    if n <= 0 {
        0
    } else {
        width_before(s, i, n - 1) + if precedes(s[n - 1], n - 1, s[i], i) {
            s[n - 1].size.w as int
        } else {
            0
        }
    }
}

/// The summed heights of the first `n` outputs of `s` that come before output `i`.
pub open spec fn height_before(s: Seq<OutputState>, i: int, n: int) -> int
    decreases n,
{
    if n <= 0 {
        0
    } else {
        height_before(s, i, n - 1) + if precedes(s[n - 1], n - 1, s[i], i) {
            s[n - 1].size.h as int
        } else {
            0
        }
    }
}

pub proof fn lemma_count_before_bound(s: Seq<OutputState>, i: int, n: int)
    requires
        0 <= i < s.len(),
        0 <= n <= s.len(),
    ensures
        count_before(s, i, n) <= if i < n { n - 1 } else { n },
    decreases n,
{
    if n > 0 {
        lemma_count_before_bound(s, i, n - 1);
    }
}

pub proof fn lemma_precedes_trans(a: OutputState, i: int, b: OutputState, j: int, c: OutputState, k: int)
    requires
        precedes(a, i, b, j),
        precedes(b, j, c, k),
    ensures
        precedes(a, i, c, k),
{
}

/// Among outputs that come before output `j`, those that come before an
/// earlier output `i` are counted too, and `i` itself besides.
pub proof fn lemma_count_before_mono(s: Seq<OutputState>, i: int, j: int, n: int)
    requires
        0 <= i < s.len(),
        0 <= j < s.len(),
        0 <= n <= s.len(),
        precedes(s[i], i, s[j], j),
    ensures
        count_before(s, j, n) >= count_before(s, i, n) + (if i < n { 1int } else { 0int }),
    decreases n,
{
    if n > 0 {
        lemma_count_before_mono(s, i, j, n - 1);
        let k = n - 1;
        if precedes(s[k], k, s[i], i) {
            lemma_precedes_trans(s[k], k, s[i], i, s[j], j);
        }
    }
}

proof fn lemma_width_before_mono(s: Seq<OutputState>, i: int, j: int, n: int)
    requires
        0 <= i < s.len(),
        0 <= j < s.len(),
        0 <= n <= s.len(),
        precedes(s[i], i, s[j], j),
        forall|k: int| 0 <= k < s.len() ==> (#[trigger] s[k]).size.w >= 0 && s[k].size.h >= 0,
    ensures
        width_before(s, j, n) >= width_before(s, i, n) + (if i < n { s[i].size.w as int } else { 0int }),
        height_before(s, j, n) >= height_before(s, i, n) + (if i < n { s[i].size.h as int } else { 0int }),
    decreases n,
{
    if n > 0 {
        lemma_width_before_mono(s, i, j, n - 1);
        let k = n - 1;
        if precedes(s[k], k, s[i], i) {
            lemma_precedes_trans(s[k], k, s[i], i, s[j], j);
        }
        assert(s[k].size.w >= 0 && s[k].size.h >= 0);
    }
}

proof fn lemma_before_nothing(s: Seq<OutputState>, i: int, n: int)
    requires
        0 <= i < s.len(),
        0 <= n <= s.len(),
        forall|k: int| 0 <= k < s.len() ==> !#[trigger] precedes(s[k], k, s[i], i),
    ensures
        width_before(s, i, n) == 0,
        height_before(s, i, n) == 0,
    decreases n,
{
    if n > 0 {
        lemma_before_nothing(s, i, n - 1);
        assert(!precedes(s[n - 1], n - 1, s[i], i));
    }
}

/// Law of arranging outputs side by side (or stacked): with sizes that are
/// not negative, the output that comes first (top to bottom, then left to
/// right) starts at 0, and an output that comes before another ends no later
/// than the other starts, so the outputs are laid out in that order without
/// overlapping.
pub proof fn lemma_arranged_in_order(s: Seq<OutputState>, i: int, j: int)
    requires
        0 <= i < s.len(),
        0 <= j < s.len(),
        forall|k: int| 0 <= k < s.len() ==> (#[trigger] s[k]).size.w >= 0 && s[k].size.h >= 0,
    ensures
        precedes(s[i], i, s[j], j) ==> width_before(s, i, s.len() as int) + s[i].size.w <= width_before(
            s,
            j,
            s.len() as int,
        ) && height_before(s, i, s.len() as int) + s[i].size.h <= height_before(s, j, s.len() as int),
        (forall|k: int| 0 <= k < s.len() ==> !#[trigger] precedes(s[k], k, s[i], i)) ==> width_before(
            s,
            i,
            s.len() as int,
        ) == 0 && height_before(s, i, s.len() as int) == 0,
{
    if precedes(s[i], i, s[j], j) {
        lemma_width_before_mono(s, i, j, s.len() as int);
    }
    if forall|k: int| 0 <= k < s.len() ==> !#[trigger] precedes(s[k], k, s[i], i) {
        lemma_before_nothing(s, i, s.len() as int);
    }
}

/// Law: the outputs' workspace shares split the workspaces 1 to `total`
/// into consecutive runs, in sorted order, with nothing left over.
pub proof fn lemma_workspace_shares_partition(n: int, total: int)
    requires
        n >= 1,
        total >= 0,
    ensures
        workspace_share(0, n, total).0 == 1,
        forall|p: int| 0 <= p < n - 1 ==> (#[trigger] workspace_share(p + 1, n, total)).0 == workspace_share(p, n, total).1 + 1,
        workspace_share(n - 1, n, total).1 == total,
        forall|p: int|
            0 <= p < n ==> (#[trigger] workspace_share(p, n, total)).1 - workspace_share(p, n, total).0 + 1 == total / n + (
            if p < total % n {
                1int
            } else {
                0int
            }),
{
    let per = total / n;
    let rem = total % n;
    assert(total == n * per + rem && 0 <= rem < n) by (nonlinear_arith)
        requires
            n >= 1,
            per == total / n,
            rem == total % n,
    ;
    assert forall|p: int| 0 <= p < n - 1 implies (#[trigger] workspace_share(p + 1, n, total)).0 == workspace_share(p, n, total).1 + 1 by {
        assert((p + 1) * per == p * per + per) by (nonlinear_arith);
    }
    assert((n - 1) * per + per == n * per) by (nonlinear_arith);
}

/// Law: no two outputs share a place in the sorted order.
pub proof fn lemma_rank_injective(s: Seq<OutputState>, i: int, j: int)
    requires
        0 <= i < s.len(),
        0 <= j < s.len(),
        i != j,
    ensures
        rank(s, i) != rank(s, j),
{
    if precedes(s[i], i, s[j], j) {
        lemma_count_before_mono(s, i, j, s.len() as int);
    } else {
        assert(precedes(s[j], j, s[i], i));
        lemma_count_before_mono(s, j, i, s.len() as int);
    }
}

pub open spec fn min_int(a: int, b: int) -> int {
    if a <= b {
        a
    } else {
        b
    }
}

/// The workspaces `(first, last)` that output number `p` of `n` gets out of
/// `total`: an equal share each, the remainder going one apiece to the first
/// outputs.
pub open spec fn workspace_share(p: int, n: int, total: int) -> (int, int) {
    let per = total / n;
    let rem = total % n;
    let start = p * per + min_int(p, rem) + 1;
    let count = per + if p < rem {
        1int
    } else {
        0int
    };
    (start, start + count - 1)
}


pub open spec fn min_x(s: Seq<OutputState>) -> int
    decreases s.len(),
{
    if s.len() == 0 {
        i32::MAX as int
    } else {
        min_int(min_x(s.drop_last()), s.last().position.x as int)
    }
}

pub open spec fn min_y(s: Seq<OutputState>) -> int
    decreases s.len(),
{
    if s.len() == 0 {
        i32::MAX as int
    } else {
        min_int(min_y(s.drop_last()), s.last().position.y as int)
    }
}

pub open spec fn max_int(a: int, b: int) -> int {
    if a >= b {
        a
    } else {
        b
    }
}

pub open spec fn max_right(s: Seq<OutputState>) -> int
    decreases s.len(),
{
    if s.len() == 0 {
        i32::MIN as int
    } else {
        max_int(max_right(s.drop_last()), s.last().position.x + s.last().size.w)
    }
}

pub open spec fn max_bottom(s: Seq<OutputState>) -> int
    decreases s.len(),
{
    if s.len() == 0 {
        i32::MIN as int
    } else {
        max_int(max_bottom(s.drop_last()), s.last().position.y + s.last().size.h)
    }
}

/// Every output's right and bottom edge fits in an `i32`, and so do the
/// width and height of the box around all of them.
pub open spec fn bounding_in_range(s: Seq<OutputState>) -> bool {
    &&& forall|i: int| 0 <= i < s.len() ==> fits_i32((#[trigger] s[i]).position.x + s[i].size.w) && fits_i32(
        s[i].position.y + s[i].size.h,
    )
    &&& (s.len() > 0 ==> fits_i32(max_right(s) - min_x(s)) && fits_i32(max_bottom(s) - min_y(s)))
}

/// The outputs by identity, an index from names to identities, and the primary output.
#[derive(Debug)]
pub struct OutputMap {
    outputs: Vec<OutputState>,
    name_to_id: Vec<(String, OutputId)>,
    primary_output: Option<OutputId>,
}

impl OutputMap {
    pub closed spec fn spec_outputs(&self) -> Seq<OutputState> {
        self.outputs@
    }

    pub closed spec fn spec_names(&self) -> Seq<(Seq<char>, OutputId)> {
        self.name_to_id@.map_values(|p: (String, OutputId)| (p.0@, p.1))
    }

    pub closed spec fn spec_primary(&self) -> Option<OutputId> {
        self.primary_output
    }

    pub open spec fn has(&self, id: OutputId) -> bool {
        exists|i: int| 0 <= i < self.spec_outputs().len() && (#[trigger] self.spec_outputs()[i]).id == id
    }

    pub open spec fn index_of(&self, id: OutputId) -> int {
        choose|i: int| 0 <= i < self.spec_outputs().len() && (#[trigger] self.spec_outputs()[i]).id == id
    }

    /// The identity a name is indexed under, if any.
    pub open spec fn name_lookup(&self, name: Seq<char>) -> Option<OutputId> {
        if exists|i: int| 0 <= i < self.spec_names().len() && (#[trigger] self.spec_names()[i]).0 == name {
            let i = choose|i: int| 0 <= i < self.spec_names().len() && (#[trigger] self.spec_names()[i]).0 == name;
            Some(self.spec_names()[i].1)
        } else {
            None
        }
    }

    /// Identities and names are distinct, and the primary output is known,
    /// present exactly when some output is.
    pub open spec fn wf(&self) -> bool {
        &&& forall|i: int, j: int|
            0 <= i < j < self.spec_outputs().len() ==> (#[trigger] self.spec_outputs()[i]).id
                != (#[trigger] self.spec_outputs()[j]).id
        &&& forall|i: int, j: int|
            0 <= i < j < self.spec_names().len() ==> (#[trigger] self.spec_names()[i]).0
                != (#[trigger] self.spec_names()[j]).0
        &&& (self.spec_primary() matches Some(p) ==> self.has(p))
        &&& (self.spec_primary() is None <==> self.spec_outputs().len() == 0)
    }

    pub proof fn lemma_index(&self, k: int)
        requires
            self.wf(),
            0 <= k < self.spec_outputs().len(),
        ensures
            self.has(self.spec_outputs()[k].id),
            self.index_of(self.spec_outputs()[k].id) == k,
    {
        let id = self.spec_outputs()[k].id;
        let i = self.index_of(id);
        if i != k {
            if i < k {
                assert(self.spec_outputs()[i].id != self.spec_outputs()[k].id);
            } else {
                assert(self.spec_outputs()[k].id != self.spec_outputs()[i].id);
            }
        }
    }

    pub proof fn lemma_name_index(&self, k: int)
        requires
            self.wf(),
            0 <= k < self.spec_names().len(),
        ensures
            self.name_lookup(self.spec_names()[k].0) == Some(self.spec_names()[k].1),
    {
        let name = self.spec_names()[k].0;
        assert(self.spec_names()[k].0 == name);
        let i = choose|i: int| 0 <= i < self.spec_names().len() && (#[trigger] self.spec_names()[i]).0 == name;
        if i != k {
            if i < k {
                assert(self.spec_names()[i].0 != self.spec_names()[k].0);
            } else {
                assert(self.spec_names()[k].0 != self.spec_names()[i].0);
            }
        }
    }

    pub fn new() -> (m: OutputMap)
        ensures
            m.wf(),
            m.spec_outputs().len() == 0,
            m.spec_names().len() == 0,
            m.spec_primary() is None,
    {
        let m = OutputMap { outputs: Vec::new(), name_to_id: Vec::new(), primary_output: None };
        assert(m.spec_names() =~= Seq::<(Seq<char>, OutputId)>::empty());
        m
    }

    fn find(&self, id: OutputId) -> (r: Option<usize>)
        requires
            self.wf(),
        ensures
            match r {
                Some(i) => i < self.spec_outputs().len() && self.spec_outputs()[i as int].id == id
                    && self.index_of(id) == i && self.has(id),
                None => !self.has(id),
            },
    {
        let mut i: usize = 0;
        while i < self.outputs.len()
            invariant
                self.wf(),
                i <= self.spec_outputs().len(),
                self.spec_outputs() == self.outputs@,
                forall|j: int| 0 <= j < i ==> (#[trigger] self.spec_outputs()[j]).id != id,
            decreases self.outputs.len() - i,
        {
            if self.outputs[i].id == id {
                proof {
                    self.lemma_index(i as int);
                }
                return Some(i);
            }
            i += 1;
        }
        None
    }

    fn find_name(&self, name: &Vec<char>) -> (r: Option<usize>)
        requires
            self.wf(),
        ensures
            match r {
                Some(i) => i < self.spec_names().len() && self.spec_names()[i as int].0 == name@
                    && self.name_lookup(name@) == Some(self.spec_names()[i as int].1),
                None => self.name_lookup(name@) is None,
            },
    {
        let mut i: usize = 0;
        while i < self.name_to_id.len()
            invariant
                self.wf(),
                i <= self.spec_names().len(),
                self.spec_names().len() == self.name_to_id@.len(),
                forall|j: int| 0 <= j < i ==> (#[trigger] self.spec_names()[j]).0 != name@,
            decreases self.name_to_id.len() - i,
        {
            let entry_name = chars_of(self.name_to_id[i].0.as_str());
            if crate::text::chars_eq(entry_name.as_slice(), name.as_slice()) {
                proof {
                    assert(self.spec_names()[i as int].0 == self.name_to_id@[i as int].0@);
                    self.lemma_name_index(i as int);
                }
                return Some(i);
            }
            assert(self.spec_names()[i as int].0 == self.name_to_id@[i as int].0@);
            i += 1;
        }
        proof {
            if exists|i: int| 0 <= i < self.spec_names().len() && (#[trigger] self.spec_names()[i]).0 == name@ {
                let k = choose|i: int| 0 <= i < self.spec_names().len() && (#[trigger] self.spec_names()[i]).0 == name@;
                assert(self.spec_names()[k].0 != name@);
            }
        }
        None
    }

    /// Indexes `name` under `id`, replacing what the name was indexed under.
    fn index_name(&mut self, name: String, id: OutputId)
        requires
            old(self).wf(),
        ensures
            final(self).spec_outputs() == old(self).spec_outputs(),
            final(self).spec_primary() == old(self).spec_primary(),
            final(self).wf(),
            final(self).name_lookup(name@) == Some(id),
            forall|other: Seq<char>| other != name@ ==> #[trigger] final(self).name_lookup(other) == old(self).name_lookup(other),
    {
        let chars = chars_of(name.as_str());
        let ghost o = old(self).spec_names();
        match self.find_name(&chars) {
            Some(i) => {
                self.name_to_id.set(i, (name, id));
                proof {
                    let e = self.spec_names();
                    assert(e =~= o.update(i as int, (name@, id)));
                    assert forall|a: int, b: int| 0 <= a < b < e.len() implies (#[trigger] e[a]).0 != (#[trigger] e[b]).0 by {
                        assert(o[a].0 != o[b].0);
                    }
                    self.lemma_name_index(i as int);
                    assert forall|other: Seq<char>| other != name@ implies #[trigger] self.name_lookup(other) == old(self).name_lookup(other) by {
                        if exists|k: int| 0 <= k < o.len() && (#[trigger] o[k]).0 == other {
                            let k = choose|k: int| 0 <= k < o.len() && (#[trigger] o[k]).0 == other;
                            old(self).lemma_name_index(k);
                            assert(e[k] == o[k]);
                            self.lemma_name_index(k);
                        } else {
                            if exists|k: int| 0 <= k < e.len() && (#[trigger] e[k]).0 == other {
                                let k = choose|k: int| 0 <= k < e.len() && (#[trigger] e[k]).0 == other;
                                assert(o[k].0 == other);
                            }
                        }
                    }
                }
            },
            None => {
                self.name_to_id.push((name, id));
                proof {
                    let e = self.spec_names();
                    let n = o.len();
                    assert(e =~= o.push((name@, id)));
                    assert forall|a: int, b: int| 0 <= a < b < e.len() implies (#[trigger] e[a]).0 != (#[trigger] e[b]).0 by {
                        if b < n {
                            assert(o[a].0 != o[b].0);
                        } else {
                            assert(o[a].0 != name@) by {
                                if o[a].0 == name@ {
                                    assert(old(self).name_lookup(name@) is Some);
                                }
                            }
                        }
                    }
                    self.lemma_name_index(n as int);
                    assert forall|other: Seq<char>| other != name@ implies #[trigger] self.name_lookup(other) == old(self).name_lookup(other) by {
                        if exists|k: int| 0 <= k < o.len() && (#[trigger] o[k]).0 == other {
                            let k = choose|k: int| 0 <= k < o.len() && (#[trigger] o[k]).0 == other;
                            old(self).lemma_name_index(k);
                            assert(e[k] == o[k]);
                            self.lemma_name_index(k);
                        } else {
                            if exists|k: int| 0 <= k < e.len() && (#[trigger] e[k]).0 == other {
                                let k = choose|k: int| 0 <= k < e.len() && (#[trigger] e[k]).0 == other;
                                assert(k < n);
                                assert(o[k].0 == other);
                            }
                        }
                    }
                }
            },
        }
    }

    /// Drops the index entry of `name`, if there is one.
    fn unindex_name(&mut self, name: &String)
        requires
            old(self).wf(),
        ensures
            final(self).spec_outputs() == old(self).spec_outputs(),
            final(self).spec_primary() == old(self).spec_primary(),
            final(self).wf(),
            final(self).name_lookup(name@) is None,
            forall|other: Seq<char>| other != name@ ==> #[trigger] final(self).name_lookup(other) == old(self).name_lookup(other),
    {
        let chars = chars_of(name.as_str());
        let ghost o = old(self).spec_names();
        match self.find_name(&chars) {
            Some(i) => {
                let _ = self.name_to_id.remove(i);
                proof {
                    let e = self.spec_names();
                    assert(e =~= o.remove(i as int));
                    assert forall|a: int, b: int| 0 <= a < b < e.len() implies (#[trigger] e[a]).0 != (#[trigger] e[b]).0 by {
                        let a2 = if a < i { a } else { a + 1 };
                        let b2 = if b < i { b } else { b + 1 };
                        assert(e[a] == o[a2] && e[b] == o[b2]);
                        assert(o[a2].0 != o[b2].0);
                    }
                    assert forall|other: Seq<char>| #[trigger] self.name_lookup(other) == (if other == name@ { None } else { old(self).name_lookup(other) }) by {
                        if exists|k: int| 0 <= k < e.len() && (#[trigger] e[k]).0 == other {
                            let k = choose|k: int| 0 <= k < e.len() && (#[trigger] e[k]).0 == other;
                            let k2 = if k < i { k } else { k + 1 };
                            assert(e[k] == o[k2]);
                            self.lemma_name_index(k);
                            old(self).lemma_name_index(k2);
                            if other == name@ {
                                if k2 < i {
                                    assert(o[k2].0 != o[i as int].0);
                                } else {
                                    assert(o[i as int].0 != o[k2].0);
                                }
                            }
                        } else {
                            if other != name@ {
                                if exists|k: int| 0 <= k < o.len() && (#[trigger] o[k]).0 == other {
                                    let k = choose|k: int| 0 <= k < o.len() && (#[trigger] o[k]).0 == other;
                                    assert(k != i);
                                    let k1 = if k < i { k } else { k - 1 };
                                    assert(e[k1] == o[k]);
                                }
                            }
                        }
                    }
                }
            },
            None => {},
        }
    }

    /// Adds an output (replacing one with the same identity) and indexes its
    /// name. The first output added to an empty map becomes primary.
    pub fn add_output(&mut self, output: OutputState) -> (id: OutputId)
        requires
            old(self).wf(),
        ensures
            final(self).wf(),
            id == output.id,
            final(self).has(id),
            final(self).spec_outputs()[final(self).index_of(id)] == output,
            forall|j: int| 0 <= j < old(self).spec_outputs().len() && old(self).spec_outputs()[j].id != id
                ==> #[trigger] final(self).spec_outputs()[j] == old(self).spec_outputs()[j],
            final(self).spec_outputs().len() == old(self).spec_outputs().len() + if old(self).has(id) { 0int } else { 1int },
            final(self).name_lookup(output.name@) == Some(id),
            forall|other: Seq<char>| other != output.name@ ==> #[trigger] final(self).name_lookup(other) == old(self).name_lookup(other),
            final(self).spec_primary() == (if old(self).spec_outputs().len() == 0 {
                Some(id)
            } else {
                old(self).spec_primary()
            }),
    {
        let id = output.id;
        let name = output.name.clone();
        let ghost o = old(self).spec_outputs();
        self.index_name(name, id);
        let ghost mid = *self;
        let found = self.find(id);
        if self.outputs.len() == 0 {
            self.primary_output = Some(id);
        }
        match found {
            Some(i) => {
                self.outputs.set(i, output);
                proof {
                    let e = self.spec_outputs();
                    assert forall|a: int, b: int| 0 <= a < b < e.len() implies (#[trigger] e[a]).id != (#[trigger] e[b]).id by {
                        assert(o[a].id != o[b].id);
                    }
                    if let Some(p) = self.spec_primary() {
                        let k = choose|k: int| 0 <= k < o.len() && (#[trigger] o[k]).id == p;
                        assert(e[k].id == p);
                    }
                    self.lemma_index(i as int);
                }
            },
            None => {
                self.outputs.push(output);
                proof {
                    let e = self.spec_outputs();
                    let n = o.len();
                    assert forall|a: int, b: int| 0 <= a < b < e.len() implies (#[trigger] e[a]).id != (#[trigger] e[b]).id by {
                        if b < n {
                            assert(o[a].id != o[b].id);
                        } else {
                            assert(o[a].id != id);
                        }
                    }
                    if let Some(p) = self.spec_primary() {
                        if n > 0 {
                            let k = choose|k: int| 0 <= k < o.len() && (#[trigger] o[k]).id == p;
                            assert(e[k].id == p);
                        } else {
                            assert(e[0].id == p);
                        }
                    }
                    self.lemma_index(n as int);
                }
            },
        }
        assert(self.spec_names() == mid.spec_names());
        assert forall|other: Seq<char>| #[trigger] self.name_lookup(other) == mid.name_lookup(other) by {}
        id
    }

    /// Removes an output and the index entry of its name. When it was
    /// primary, the first remaining output becomes primary.
    pub fn remove_output(&mut self, id: OutputId) -> (r: Option<OutputState>)
        requires
            old(self).wf(),
        ensures
            final(self).wf(),
            !final(self).has(id),
            r is Some <==> old(self).has(id),
            match r {
                Some(o) => {
                    &&& o == old(self).spec_outputs()[old(self).index_of(id)]
                    &&& final(self).spec_outputs() == old(self).spec_outputs().remove(old(self).index_of(id))
                    &&& final(self).name_lookup(o.name@) is None
                    &&& forall|other: Seq<char>| other != o.name@ ==> #[trigger] final(self).name_lookup(other) == old(self).name_lookup(other)
                },
                None => final(self).spec_outputs() == old(self).spec_outputs()
                    && forall|other: Seq<char>| #[trigger] final(self).name_lookup(other) == old(self).name_lookup(other),
            },
            final(self).spec_primary() == (if old(self).spec_primary() == Some(id) {
                if final(self).spec_outputs().len() > 0 {
                    Some(final(self).spec_outputs()[0].id)
                } else {
                    None
                }
            } else {
                old(self).spec_primary()
            }),
    {
        match self.find(id) {
            Some(i) => {
                let ghost o = old(self).spec_outputs();
                let output = self.outputs.remove(i);
                proof {
                    let e = self.spec_outputs();
                    assert forall|a: int, b: int| 0 <= a < b < e.len() implies (#[trigger] e[a]).id != (#[trigger] e[b]).id by {
                        let a2 = if a < i { a } else { a + 1 };
                        let b2 = if b < i { b } else { b + 1 };
                        assert(e[a] == o[a2] && e[b] == o[b2]);
                        assert(o[a2].id != o[b2].id);
                    }
                    assert(!self.has(id)) by {
                        if self.has(id) {
                            let k = choose|k: int| 0 <= k < e.len() && (#[trigger] e[k]).id == id;
                            let k2 = if k < i { k } else { k + 1 };
                            assert(e[k] == o[k2]);
                            if k2 < i {
                                assert(o[k2].id != o[i as int].id);
                            } else {
                                assert(o[i as int].id != o[k2].id);
                            }
                        }
                    }
                }
                if self.primary_output == Some(id) {
                    self.primary_output = if self.outputs.len() > 0 {
                        Some(self.outputs[0].id)
                    } else {
                        None
                    };
                }
                assert(self.spec_names() == old(self).spec_names());
                proof {
                    let e = self.spec_outputs();
                    if let Some(p) = self.spec_primary() {
                        if old(self).spec_primary() == Some(id) {
                            assert(e[0].id == p);
                        } else {
                            let k = choose|k: int| 0 <= k < o.len() && (#[trigger] o[k]).id == p;
                            assert(k != i);
                            let k1 = if k < i { k } else { k - 1 };
                            assert(e[k1] == o[k]);
                        }
                    }
                }
                self.unindex_name(&output.name);
                Some(output)
            },
            None => None,
        }
    }

    pub fn get(&self, id: OutputId) -> (r: Option<&OutputState>)
        requires
            self.wf(),
        ensures
            r is Some <==> self.has(id),
            r matches Some(o) ==> *o == self.spec_outputs()[self.index_of(id)],
    {
        match self.find(id) {
            Some(i) => Some(&self.outputs[i]),
            None => None,
        }
    }

    /// Mutable access to an output. The caller keeps the map well formed by
    /// not changing the output's identity.
    pub fn get_mut(&mut self, id: OutputId) -> (r: Option<&mut OutputState>)
        requires
            old(self).wf(),
        ensures
            r is Some <==> old(self).has(id),
            match r {
                Some(o) => {
                    &&& *o == old(self).spec_outputs()[old(self).index_of(id)]
                    &&& final(self).spec_outputs() == old(self).spec_outputs().update(old(self).index_of(id), *final(o))
                    &&& final(self).spec_names() == old(self).spec_names()
                    &&& final(self).spec_primary() == old(self).spec_primary()
                },
                None => *final(self) == *old(self),
            },
    {
        match self.find(id) {
            Some(i) => Some(&mut self.outputs[i]),
            None => None,
        }
    }

    /// The output indexed under `name`, if that output is still present.
    pub fn get_by_name(&self, name: &str) -> (r: Option<&OutputState>)
        requires
            self.wf(),
        ensures
            r is Some <==> (self.name_lookup(name@) matches Some(id) && self.has(id)),
            r matches Some(o) ==> *o == self.spec_outputs()[self.index_of(self.name_lookup(name@)->0)],
    {
        let chars = chars_of(name);
        match self.find_name(&chars) {
            Some(k) => {
                let id = self.name_to_id[k].1;
                assert(self.spec_names()[k as int].1 == id);
                self.get(id)
            },
            None => None,
        }
    }

    pub fn primary(&self) -> (r: Option<&OutputState>)
        requires
            self.wf(),
        ensures
            r is Some <==> self.spec_primary() is Some,
            r matches Some(o) ==> *o == self.spec_outputs()[self.index_of(self.spec_primary()->0)],
    {
        match self.primary_output {
            Some(id) => self.get(id),
            None => None,
        }
    }

    /// Mutable access to the output indexed under `name`, if that output is
    /// still present.
    pub fn get_by_name_mut(&mut self, name: &str) -> (r: Option<&mut OutputState>)
        requires
            old(self).wf(),
        ensures
            r is Some <==> (old(self).name_lookup(name@) matches Some(id) && old(self).has(id)),
            match r {
                Some(o) => {
                    let i = old(self).index_of(old(self).name_lookup(name@)->0);
                    &&& *o == old(self).spec_outputs()[i]
                    &&& final(self).spec_outputs() == old(self).spec_outputs().update(i, *final(o))
                    &&& final(self).spec_names() == old(self).spec_names()
                    &&& final(self).spec_primary() == old(self).spec_primary()
                },
                None => *final(self) == *old(self),
            },
    {
        let chars = chars_of(name);
        match self.find_name(&chars) {
            Some(k) => {
                let id = self.name_to_id[k].1;
                assert(self.spec_names()[k as int].1 == id);
                self.get_mut(id)
            },
            None => None,
        }
    }

    /// Mutable access to the primary output, if there is one.
    pub fn primary_mut(&mut self) -> (r: Option<&mut OutputState>)
        requires
            old(self).wf(),
        ensures
            r is Some <==> old(self).spec_primary() is Some,
            match r {
                Some(o) => {
                    let i = old(self).index_of(old(self).spec_primary()->0);
                    &&& *o == old(self).spec_outputs()[i]
                    &&& final(self).spec_outputs() == old(self).spec_outputs().update(i, *final(o))
                    &&& final(self).spec_names() == old(self).spec_names()
                    &&& final(self).spec_primary() == old(self).spec_primary()
                },
                None => *final(self) == *old(self),
            },
    {
        match self.primary_output {
            Some(id) => self.get_mut(id),
            None => None,
        }
    }

    /// Makes a known output primary; an unknown one is ignored.
    pub fn set_primary(&mut self, id: OutputId)
        requires
            old(self).wf(),
        ensures
            final(self).wf(),
            final(self).spec_outputs() == old(self).spec_outputs(),
            final(self).spec_names() == old(self).spec_names(),
            final(self).spec_primary() == (if old(self).has(id) {
                Some(id)
            } else {
                old(self).spec_primary()
            }),
    {
        if let Some(i) = self.find(id) {
            if self.primary_output != Some(id) {
                self.primary_output = Some(id);
            }
            assert(self.spec_outputs()[i as int].id == id);
            assert(self.has(id));
            assert(self.spec_primary() == Some(id));
        }
        assert(self.spec_outputs() == old(self).spec_outputs());
        assert(self.spec_names() == old(self).spec_names());
        assert(self.spec_primary() is None <==> self.spec_outputs().len() == 0);
        assert(self.spec_primary() matches Some(p) ==> self.has(p));
    }

    /// All outputs, in the order they were added.
    pub fn outputs(&self) -> (r: &[OutputState])
        ensures
            r@ == self.spec_outputs(),
    {
        self.outputs.as_slice()
    }

    pub fn len(&self) -> (n: usize)
        ensures
            n == self.spec_outputs().len(),
    {
        self.outputs.len()
    }

    pub fn is_empty(&self) -> (b: bool)
        ensures
            b == (self.spec_outputs().len() == 0),
    {
        self.outputs.len() == 0
    }

    /// Sets the size of a known output.
    pub fn update_size(&mut self, id: OutputId, size: Size)
        requires
            old(self).wf(),
        ensures
            final(self).wf(),
            final(self).spec_names() == old(self).spec_names(),
            final(self).spec_primary() == old(self).spec_primary(),
            final(self).spec_outputs().len() == old(self).spec_outputs().len(),
            forall|j: int| 0 <= j < old(self).spec_outputs().len() ==> {
                let a = old(self).spec_outputs()[j];
                let b = #[trigger] final(self).spec_outputs()[j];
                &&& b.id == a.id
                &&& b.name == a.name
                &&& b.position == a.position
                &&& b.size == (if a.id == id { size } else { a.size })
            },
    {
        if let Some(i) = self.find(id) {
            let ghost o = self.spec_outputs();
            let mut out = self.outputs.remove(i);
            if out.size != size {
                out.size = size;
            }
            self.outputs.insert(i, out);
            proof {
                let e = self.spec_outputs();
                assert forall|j: int| 0 <= j < o.len() && j != i implies #[trigger] e[j] == o[j] by {}
                assert forall|a: int, b: int| 0 <= a < b < e.len() implies (#[trigger] e[a]).id != (#[trigger] e[b]).id by {
                    assert(o[a].id != o[b].id);
                }
                if let Some(p) = self.spec_primary() {
                    let k = choose|k: int| 0 <= k < o.len() && (#[trigger] o[k]).id == p;
                    assert(e[k].id == p);
                }
                assert(self.spec_names() == old(self).spec_names());
                assert(self.spec_primary() is None <==> self.spec_outputs().len() == 0);
                assert forall|j: int| 0 <= j < o.len() implies (#[trigger] e[j]).size == (if o[j].id == id { size } else { o[j].size }) by {
                    if j != i {
                        assert(o[j].id != o[i as int].id) by {
                            if j < i {
                            } else {
                            }
                        }
                    }
                }
            }
        }
    }

    /// The smallest rectangle around all outputs; an empty one at the origin
    /// when there is no output.
    pub fn bounding_box(&self) -> (r: Rect)
        requires
            bounding_in_range(self.spec_outputs()),
        ensures
            self.spec_outputs().len() == 0 ==> r == Rect::spec_from_size(0, 0),
            self.spec_outputs().len() > 0 ==> {
                let s = self.spec_outputs();
                &&& r.loc.x == min_x(s)
                &&& r.loc.y == min_y(s)
                &&& r.size.w == max_right(s) - min_x(s)
                &&& r.size.h == max_bottom(s) - min_y(s)
            },
    {
        if self.outputs.len() == 0 {
            return Rect::from_size(0, 0);
        }
        let mut lx: i32 = i32::MAX;
        let mut ly: i32 = i32::MAX;
        let mut hx: i32 = i32::MIN;
        let mut hy: i32 = i32::MIN;
        let mut i: usize = 0;
        while i < self.outputs.len()
            invariant
                i <= self.spec_outputs().len(),
                self.spec_outputs() == self.outputs@,
                bounding_in_range(self.spec_outputs()),
                lx == min_x(self.spec_outputs().subrange(0, i as int)),
                ly == min_y(self.spec_outputs().subrange(0, i as int)),
                hx == max_right(self.spec_outputs().subrange(0, i as int)),
                hy == max_bottom(self.spec_outputs().subrange(0, i as int)),
            decreases self.outputs.len() - i,
        {
            let geo = self.outputs[i].geometry();
            let ghost s = self.spec_outputs();
            assert(s.subrange(0, i + 1).drop_last() =~= s.subrange(0, i as int));
            assert(fits_i32(s[i as int].position.x + s[i as int].size.w));
            assert(fits_i32(s[i as int].position.y + s[i as int].size.h));
            if geo.loc.x < lx {
                lx = geo.loc.x;
            }
            if geo.loc.y < ly {
                ly = geo.loc.y;
            }
            let right = geo.loc.x + geo.size.w;
            let bottom = geo.loc.y + geo.size.h;
            if right > hx {
                hx = right;
            }
            if bottom > hy {
                hy = bottom;
            }
            i += 1;
        }
        assert(self.spec_outputs().subrange(0, self.spec_outputs().len() as int) =~= self.spec_outputs());
        Rect::new(lx, ly, hx - lx, hy - ly)
    }

    /// The output's place among the outputs sorted top to bottom, then left to right.
    fn rank_of(&self, i: usize) -> (r: usize)
        requires
            i < self.spec_outputs().len(),
        ensures
            r == rank(self.spec_outputs(), i as int),
            r < self.spec_outputs().len(),
    {
        let n = self.outputs.len();
        let me = &self.outputs[i];
        let mut count: usize = 0;
        let mut j: usize = 0;
        while j < n
            invariant
                n == self.spec_outputs().len(),
                i < n,
                j <= n,
                *me == self.spec_outputs()[i as int],
                self.spec_outputs() == self.outputs@,
                count == count_before(self.spec_outputs(), i as int, j as int),
                count <= j,
            decreases n - j,
        {
            let other = &self.outputs[j];
            if other.position.y < me.position.y || (other.position.y == me.position.y && other.position.x
                < me.position.x) || (other.position.y == me.position.y && other.position.x
                == me.position.x && j < i) {
                count += 1;
            }
            j += 1;
        }
        proof {
            lemma_count_before_bound(self.spec_outputs(), i as int, n as int);
        }
        count
    }

    /// The outputs sorted top to bottom, then left to right; outputs at the
    /// same position keep their order.
    pub fn sorted_outputs(&self) -> (r: Vec<&OutputState>)
        ensures
            r@.len() == self.spec_outputs().len(),
            forall|i: int| 0 <= i < self.spec_outputs().len() ==> *r@[rank(self.spec_outputs(), i) as int] == #[trigger] self.spec_outputs()[i],
    {
        let n = self.outputs.len();
        let mut r: Vec<&OutputState> = Vec::new();
        if n == 0 {
            return r;
        }
        let mut k: usize = 0;
        while k < n
            invariant
                n == self.spec_outputs().len(),
                n > 0,
                k <= n,
                r@.len() == k,
            decreases n - k,
        {
            r.push(&self.outputs[0]);
            k += 1;
        }
        let mut i: usize = 0;
        while i < n
            invariant
                n == self.spec_outputs().len(),
                self.spec_outputs() == self.outputs@,
                i <= n,
                r@.len() == n,
                forall|j: int| 0 <= j < i ==> *r@[rank(self.spec_outputs(), j) as int] == #[trigger] self.spec_outputs()[j],
            decreases n - i,
        {
            let p = self.rank_of(i);
            r.set(p, &self.outputs[i]);
            proof {
                assert forall|j: int| 0 <= j < i + 1 implies *r@[rank(self.spec_outputs(), j) as int] == #[trigger] self.spec_outputs()[j] by {
                    if j < i {
                        lemma_rank_injective(self.spec_outputs(), j, i as int);
                        lemma_count_before_bound(self.spec_outputs(), j, n as int);
                    }
                }
            }
            i += 1;
        }
        r
    }

    /// The workspaces `(first, last)` of `total` that fall to a known output:
    /// the outputs, sorted top to bottom then left to right, share the
    /// workspaces in order, the first ones taking one each of the remainder.
    pub fn workspace_range(&self, id: OutputId, total_workspaces: u32) -> (r: Option<(u32, u32)>)
        requires
            self.wf(),
            self.spec_outputs().len() <= u32::MAX,
        ensures
            r is Some <==> self.has(id),
            r matches Some((first, last)) ==> (first as int, last as int) == workspace_share(
                rank(self.spec_outputs(), self.index_of(id)) as int,
                self.spec_outputs().len() as int,
                total_workspaces as int,
            ),
    {
        let i = match self.find(id) {
            Some(i) => i,
            None => return None,
        };
        let position = self.rank_of(i);
        let num_outputs = self.outputs.len() as u32;
        let per = total_workspaces / num_outputs;
        let remainder = total_workspaces % num_outputs;
        let ghost p = position as int;
        let ghost n = num_outputs as int;
        proof {
            let t = total_workspaces as int;
            assert(t == n * per + remainder) by (nonlinear_arith)
                requires
                    per == t / n,
                    remainder == t % n,
                    n > 0,
            ;
            assert((p + 1) * per <= n * per) by (nonlinear_arith)
                requires
                    p + 1 <= n,
                    per >= 0,
            ;
            assert(p * per + per == (p + 1) * per) by (nonlinear_arith);
        }
        let pos32 = position as u32;
        let mut sum: u32 = 0;
        let mut k: u32 = 0;
        while k < pos32
            invariant
                pos32 == p,
                k <= p,
                p < n,
                0 <= remainder < n,
                n * per + remainder == total_workspaces,
                (p + 1) * per <= n * per,
                sum == k * per + min_int(k as int, remainder as int),
            decreases p - k,
        {
            proof {
                assert(k * per + per <= p * per + per) by (nonlinear_arith)
                    requires
                        k < p,
                        per >= 0,
                ;
                assert(p * per + per == (p + 1) * per) by (nonlinear_arith);
                assert((k + 1) * per == k * per + per) by (nonlinear_arith);
            }
            sum = sum + per + if k < remainder {
                1
            } else {
                0
            };
            k += 1;
        }
        proof {
            assert(p * per + per == (p + 1) * per) by (nonlinear_arith);
            if per == 0 {
                assert(n * per == 0) by (nonlinear_arith)
                    requires
                        per == 0,
                ;
                assert(total_workspaces == remainder);
            }
        }
        let start = sum + 1;
        let count = per + if pos32 < remainder {
            1
        } else {
            0
        };
        Some((start, start - 1 + count))
    }

    fn width_before_of(&self, i: usize) -> (r: i128)
        requires
            i < self.spec_outputs().len(),
        ensures
            r == width_before(self.spec_outputs(), i as int, self.spec_outputs().len() as int),
    {
        let n = self.outputs.len();
        let me = &self.outputs[i];
        let mut sum: i128 = 0;
        let mut j: usize = 0;
        while j < n
            invariant
                n == self.spec_outputs().len(),
                i < n,
                j <= n,
                *me == self.spec_outputs()[i as int],
                self.spec_outputs() == self.outputs@,
                sum == width_before(self.spec_outputs(), i as int, j as int),
                -0x8000_0000 * j <= sum <= 0x7fff_ffff * j,
            decreases n - j,
        {
            let other = &self.outputs[j];
            if other.position.y < me.position.y || (other.position.y == me.position.y && other.position.x
                < me.position.x) || (other.position.y == me.position.y && other.position.x
                == me.position.x && j < i) {
                sum = sum + other.size.w as i128;
            }
            j += 1;
        }
        sum
    }

    fn height_before_of(&self, i: usize) -> (r: i128)
        requires
            i < self.spec_outputs().len(),
        ensures
            r == height_before(self.spec_outputs(), i as int, self.spec_outputs().len() as int),
    {
        let n = self.outputs.len();
        let me = &self.outputs[i];
        let mut sum: i128 = 0;
        let mut j: usize = 0;
        while j < n
            invariant
                n == self.spec_outputs().len(),
                i < n,
                j <= n,
                *me == self.spec_outputs()[i as int],
                self.spec_outputs() == self.outputs@,
                sum == height_before(self.spec_outputs(), i as int, j as int),
                -0x8000_0000 * j <= sum <= 0x7fff_ffff * j,
            decreases n - j,
        {
            let other = &self.outputs[j];
            if other.position.y < me.position.y || (other.position.y == me.position.y && other.position.x
                < me.position.x) || (other.position.y == me.position.y && other.position.x
                == me.position.x && j < i) {
                sum = sum + other.size.h as i128;
            }
            j += 1;
        }
        sum
    }

    /// Places the outputs in one row from x = 0, in sorted order, each
    /// starting where the one before ends.
    pub fn auto_arrange_horizontal(&mut self)
        requires
            old(self).wf(),
            forall|i: int| 0 <= i < old(self).spec_outputs().len() ==> fits_i32(
                width_before(old(self).spec_outputs(), i, old(self).spec_outputs().len() as int)
                    + (#[trigger] old(self).spec_outputs()[i]).size.w,
            ) && fits_i32(width_before(old(self).spec_outputs(), i, old(self).spec_outputs().len() as int)),
        ensures
            final(self).wf(),
            final(self).spec_names() == old(self).spec_names(),
            final(self).spec_primary() == old(self).spec_primary(),
            final(self).spec_outputs().len() == old(self).spec_outputs().len(),
            forall|i: int| 0 <= i < old(self).spec_outputs().len() ==> {
                let a = old(self).spec_outputs()[i];
                let b = #[trigger] final(self).spec_outputs()[i];
                &&& b.id == a.id
                &&& b.name == a.name
                &&& b.size == a.size
                &&& b.position.x == width_before(old(self).spec_outputs(), i, old(self).spec_outputs().len() as int)
                &&& b.position.y == 0
            },
    {
        let n = self.outputs.len();
        let mut xs: Vec<i32> = Vec::new();
        let mut i: usize = 0;
        while i < n
            invariant
                n == self.spec_outputs().len(),
                *self == *old(self),
                forall|k: int| 0 <= k < n ==> fits_i32(
                    width_before(old(self).spec_outputs(), k, n as int) + (#[trigger] old(self).spec_outputs()[k]).size.w,
                ) && fits_i32(width_before(old(self).spec_outputs(), k, n as int)),
                i <= n,
                xs@.len() == i,
                forall|k: int| 0 <= k < i ==> #[trigger] xs@[k] == width_before(self.spec_outputs(), k, n as int),
            decreases n - i,
        {
            let w = self.width_before_of(i);
            assert(fits_i32(w + self.spec_outputs()[i as int].size.w));
            xs.push(w as i32);
            i += 1;
        }
        self.place(&xs, true);
    }

    /// Places the outputs in one column from y = 0, in sorted order, each
    /// starting where the one before ends.
    pub fn auto_arrange_vertical(&mut self)
        requires
            old(self).wf(),
            forall|i: int| 0 <= i < old(self).spec_outputs().len() ==> fits_i32(
                height_before(old(self).spec_outputs(), i, old(self).spec_outputs().len() as int)
                    + (#[trigger] old(self).spec_outputs()[i]).size.h,
            ) && fits_i32(height_before(old(self).spec_outputs(), i, old(self).spec_outputs().len() as int)),
        ensures
            final(self).wf(),
            final(self).spec_names() == old(self).spec_names(),
            final(self).spec_primary() == old(self).spec_primary(),
            final(self).spec_outputs().len() == old(self).spec_outputs().len(),
            forall|i: int| 0 <= i < old(self).spec_outputs().len() ==> {
                let a = old(self).spec_outputs()[i];
                let b = #[trigger] final(self).spec_outputs()[i];
                &&& b.id == a.id
                &&& b.name == a.name
                &&& b.size == a.size
                &&& b.position.x == 0
                &&& b.position.y == height_before(old(self).spec_outputs(), i, old(self).spec_outputs().len() as int)
            },
    {
        let n = self.outputs.len();
        let mut ys: Vec<i32> = Vec::new();
        let mut i: usize = 0;
        while i < n
            invariant
                n == self.spec_outputs().len(),
                *self == *old(self),
                forall|k: int| 0 <= k < n ==> fits_i32(
                    height_before(old(self).spec_outputs(), k, n as int) + (#[trigger] old(self).spec_outputs()[k]).size.h,
                ) && fits_i32(height_before(old(self).spec_outputs(), k, n as int)),
                i <= n,
                ys@.len() == i,
                forall|k: int| 0 <= k < i ==> #[trigger] ys@[k] == height_before(self.spec_outputs(), k, n as int),
            decreases n - i,
        {
            let h = self.height_before_of(i);
            assert(fits_i32(h + self.spec_outputs()[i as int].size.h));
            ys.push(h as i32);
            i += 1;
        }
        self.place(&ys, false);
    }

    /// Moves output `i` to `(offsets[i], 0)` (`row`) or `(0, offsets[i])`.
    fn place(&mut self, offsets: &Vec<i32>, row: bool)
        requires
            old(self).wf(),
            offsets@.len() == old(self).spec_outputs().len(),
        ensures
            final(self).wf(),
            final(self).spec_names() == old(self).spec_names(),
            final(self).spec_primary() == old(self).spec_primary(),
            final(self).spec_outputs().len() == old(self).spec_outputs().len(),
            forall|i: int| 0 <= i < old(self).spec_outputs().len() ==> {
                let a = old(self).spec_outputs()[i];
                let b = #[trigger] final(self).spec_outputs()[i];
                &&& b.id == a.id
                &&& b.name == a.name
                &&& b.size == a.size
                &&& b.position == (if row { Point { x: offsets@[i], y: 0 } } else { Point { x: 0, y: offsets@[i] } })
            },
    {
        let n = self.outputs.len();
        let mut i: usize = 0;
        while i < n
            invariant
                n == self.spec_outputs().len(),
                n == old(self).spec_outputs().len(),
                offsets@.len() == n,
                i <= n,
                self.spec_names() == old(self).spec_names(),
                self.spec_primary() == old(self).spec_primary(),
                old(self).wf(),
                forall|k: int| 0 <= k < n ==> {
                    let a = old(self).spec_outputs()[k];
                    let b = #[trigger] self.spec_outputs()[k];
                    &&& b.id == a.id
                    &&& b.name == a.name
                    &&& b.size == a.size
                    &&& k < i ==> b.position == (if row { Point { x: offsets@[k], y: 0 } } else { Point { x: 0, y: offsets@[k] } })
                },
            decreases n - i,
        {
            let ghost before = self.spec_outputs();
            let mut o = self.outputs.remove(i);
            if row {
                o.set_position(offsets[i], 0);
            } else {
                o.set_position(0, offsets[i]);
            }
            self.outputs.insert(i, o);
            proof {
                assert forall|k: int| 0 <= k < n && k != i implies #[trigger] self.spec_outputs()[k] == before[k] by {}
            }
            i += 1;
        }
        proof {
            let e = self.spec_outputs();
            let o = old(self).spec_outputs();
            assert forall|a: int, b: int| 0 <= a < b < e.len() implies (#[trigger] e[a]).id != (#[trigger] e[b]).id by {
                assert(o[a].id != o[b].id);
            }
            if let Some(p) = self.spec_primary() {
                let k = choose|k: int| 0 <= k < o.len() && (#[trigger] o[k]).id == p;
                assert(e[k].id == p);
            }
        }
    }
}

} // verus!

verus! {

/// One property of an output that can change.
#[derive(Clone, Copy, Debug, PartialEq, Eq, Structural)]
pub enum OutputProperty {
    Size(Size),
    Position(Point),
    /// The IEEE-754 bits of the new scale factor.
    Scale(u64),
    Transform(Transform),
    Enabled(bool),
}

/// A change to the set of outputs, recorded for the compositor to react to.
#[derive(Clone, Copy, Debug, PartialEq, Eq, Structural)]
pub enum OutputChange {
    Added(OutputId),
    Removed(OutputId),
    Changed(OutputId, OutputProperty),
}

/// `b` is output `a` with property `p` set, everything else kept.
pub open spec fn with_property(a: OutputState, b: OutputState, p: OutputProperty) -> bool {
    &&& b.id == a.id
    &&& b.name == a.name
    &&& b.make == a.make
    &&& b.model == a.model
    &&& b.physical_size == a.physical_size
    &&& b.refresh_rate_mhz == a.refresh_rate_mhz
    &&& b.primary == a.primary
    &&& b.active_workspace == a.active_workspace
    &&& b.size == (if let OutputProperty::Size(s) = p { s } else { a.size })
    &&& b.position == (if let OutputProperty::Position(q) = p { q } else { a.position })
    &&& b.scale_bits == (if let OutputProperty::Scale(v) = p { v } else { a.scale_bits })
    &&& b.transform == (if let OutputProperty::Transform(t) = p { t } else { a.transform })
    &&& b.enabled == (if let OutputProperty::Enabled(e) = p { e } else { a.enabled })
}

/// The output map together with the log of changes not yet taken.
#[derive(Debug)]
pub struct OutputManager {
    map: OutputMap,
    changes: Vec<OutputChange>,
}

impl OutputManager {
    pub closed spec fn spec_map(&self) -> OutputMap {
        self.map
    }

    pub closed spec fn spec_changes(&self) -> Seq<OutputChange> {
        self.changes@
    }

    pub open spec fn wf(&self) -> bool {
        self.spec_map().wf()
    }

    pub fn new() -> (m: OutputManager)
        ensures
            m.wf(),
            m.spec_map().spec_outputs().len() == 0,
            m.spec_map().spec_primary() is None,
            m.spec_changes().len() == 0,
    {
        OutputManager { map: OutputMap::new(), changes: Vec::new() }
    }

    pub fn map(&self) -> (m: &OutputMap)
        ensures
            *m == self.spec_map(),
    {
        &self.map
    }

    /// Mutable access to the map; changes made through it are not logged.
    pub fn map_mut(&mut self) -> (m: &mut OutputMap)
        ensures
            *m == old(self).spec_map(),
            final(self).spec_map() == *final(m),
            final(self).spec_changes() == old(self).spec_changes(),
    {
        &mut self.map
    }

    /// Adds an output to the map and logs its addition.
    pub fn add_output(&mut self, output: OutputState) -> (id: OutputId)
        requires
            old(self).wf(),
        ensures
            final(self).wf(),
            id == output.id,
            final(self).spec_map().has(id),
            final(self).spec_map().spec_outputs()[final(self).spec_map().index_of(id)] == output,
            final(self).spec_changes() == old(self).spec_changes().push(OutputChange::Added(id)),
    {
        let id = self.map.add_output(output);
        self.changes.push(OutputChange::Added(id));
        id
    }

    /// Removes an output; its removal is logged when it was known.
    pub fn remove_output(&mut self, id: OutputId) -> (r: Option<OutputState>)
        requires
            old(self).wf(),
        ensures
            final(self).wf(),
            !final(self).spec_map().has(id),
            r is Some <==> old(self).spec_map().has(id),
            final(self).spec_changes() == (if r is Some {
                old(self).spec_changes().push(OutputChange::Removed(id))
            } else {
                old(self).spec_changes()
            }),
    {
        let output = self.map.remove_output(id);
        if output.is_some() {
            self.changes.push(OutputChange::Removed(id));
        }
        output
    }

    /// Sets one property of a known output and logs the change; an unknown
    /// output is ignored.
    pub fn update_property(&mut self, id: OutputId, property: OutputProperty)
        requires
            old(self).wf(),
        ensures
            final(self).wf(),
            old(self).spec_map().has(id) ==> {
                let i = old(self).spec_map().index_of(id);
                &&& final(self).spec_map().spec_outputs().len() == old(self).spec_map().spec_outputs().len()
                &&& with_property(old(self).spec_map().spec_outputs()[i], final(self).spec_map().spec_outputs()[i], property)
                &&& forall|j: int| 0 <= j < old(self).spec_map().spec_outputs().len() && j != i
                    ==> #[trigger] final(self).spec_map().spec_outputs()[j] == old(self).spec_map().spec_outputs()[j]
                &&& final(self).spec_changes() == old(self).spec_changes().push(OutputChange::Changed(id, property))
            },
            !old(self).spec_map().has(id) ==> final(self).spec_map() == old(self).spec_map()
                && final(self).spec_changes() == old(self).spec_changes(),
    {
        let ghost before = self.map;
        match self.map.get_mut(id) {
            Some(output) => {
                match property {
                    OutputProperty::Size(size) => output.size = size,
                    OutputProperty::Position(pos) => output.position = pos,
                    OutputProperty::Scale(scale) => output.scale_bits = scale,
                    OutputProperty::Transform(transform) => output.transform = transform,
                    OutputProperty::Enabled(enabled) => output.enabled = enabled,
                }
                proof {
                    let e = self.map.spec_outputs();
                    let o = before.spec_outputs();
                    let i = before.index_of(id);
                    assert(e == o.update(i, e[i]));
                    assert forall|a: int, b: int| 0 <= a < b < e.len() implies (#[trigger] e[a]).id != (#[trigger] e[b]).id by {
                        assert(o[a].id != o[b].id);
                    }
                    if let Some(p) = self.map.spec_primary() {
                        let k = choose|k: int| 0 <= k < o.len() && (#[trigger] o[k]).id == p;
                        assert(e[k].id == p);
                    }
                }
                self.changes.push(OutputChange::Changed(id, property));
            },
            None => {},
        }
    }

    /// Hands out the logged changes, oldest first, and empties the log.
    pub fn take_changes(&mut self) -> (r: Vec<OutputChange>)
        ensures
            r@ == old(self).spec_changes(),
            final(self).spec_changes().len() == 0,
            final(self).spec_map() == old(self).spec_map(),
    {
        let mut taken: Vec<OutputChange> = Vec::new();
        std::mem::swap(&mut taken, &mut self.changes);
        taken
    }

    pub fn has_changes(&self) -> (b: bool)
        ensures
            b == (self.spec_changes().len() > 0),
    {
        self.changes.len() != 0
    }

    /// The size of the primary output, or 1920 by 1080 when there is none.
    pub fn primary_size(&self) -> (s: Size)
        requires
            self.wf(),
        ensures
            s == (match self.spec_map().spec_primary() {
                Some(p) => self.spec_map().spec_outputs()[self.spec_map().index_of(p)].size,
                None => Size { w: 1920, h: 1080 },
            }),
    {
        match self.map.primary() {
            Some(o) => o.size,
            None => Size { w: 1920, h: 1080 },
        }
    }
}

} // verus!
