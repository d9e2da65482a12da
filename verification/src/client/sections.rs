//! The sections of the loaded chunks: which are turned into meshes in a frame, and which are
//! drawn.

use vstd::prelude::*;

verus! {

/// How many sections a chunk has, one above the other.
pub const SECTIONS: usize = 16;

/// How many sections a frame turns into meshes before it stops.
pub const MESHING_QUOTA: i32 = 8;

/// What is known of one section of a chunk.
#[derive(Debug, Clone, Copy, PartialEq, Eq, Structural)]
pub enum Section {
    /// There is nothing in it.
    Absent,
    /// Its mesh is up to date.
    Clean,
    /// It has changed since its mesh was made.
    Dirty,
}

/// A chunk: its coordinates, and its sections from the lowest up.
#[derive(Debug, Clone, PartialEq)]
pub struct Column {
    pub x: i32,
    pub z: i32,
    pub sections: Vec<Section>,
}

impl Column {
    /// A chunk has all its sections.
    pub open spec fn wf(self) -> bool {
        self.sections@.len() == SECTIONS
    }
}

/// Whether all chunks have their sections.
pub open spec fn all_wf(columns: Seq<Column>) -> bool {
    forall|i: int| 0 <= i < columns.len() ==> (#[trigger] columns[i]).wf()
}

/// A section that a mesh is made of: the chunk's coordinates with its own height between.
#[derive(Debug, Clone, Copy, PartialEq, Eq, Structural)]
pub struct SectionPos {
    pub x: i32,
    pub y: i32,
    pub z: i32,
}

/// The dirty ones of the lowest sections of a chunk, from the lowest up.
pub open spec fn dirty_in(x: i32, z: i32, sections: Seq<Section>) -> Seq<SectionPos>
    decreases sections.len(),
{
    if sections.len() == 0 {
        seq![]
    } else {
        let below = dirty_in(x, z, sections.drop_last());
        if sections.last() is Dirty {
            below.push(SectionPos { x, y: (sections.len() - 1) as i32, z })
        } else {
            below
        }
    }
}

/// The dirty sections of the chunks, chunk by chunk.
pub open spec fn dirty(columns: Seq<Column>) -> Seq<SectionPos>
    decreases columns.len(),
{
    if columns.len() == 0 {
        seq![]
    } else {
        dirty(columns.drop_last()) + dirty_in(
            columns.last().x,
            columns.last().z,
            columns.last().sections@,
        )
    }
}

/// A section once its mesh is up to date.
pub open spec fn cleaned(s: Section) -> Section {
    if s is Dirty {
        Section::Clean
    } else {
        s
    }
}

/// Whether `c` is the chunk `b` with all its meshes up to date.
pub open spec fn is_cleaned(c: Column, b: Column) -> bool {
    &&& c.x == b.x
    &&& c.z == b.z
    &&& c.sections@ == b.sections@.map_values(|s: Section| cleaned(s))
}

/// Whether a frame that meets `columns` in this order deals with the first `n` of them: it
/// goes on to the last, unless at the end of a chunk it has made as many meshes as its quota
/// says, no more and no fewer.
pub open spec fn meshes_first(columns: Seq<Column>, n: int) -> bool {
    &&& 0 <= n <= columns.len()
    &&& forall|m: int|
        0 < m < n ==> (#[trigger] dirty(columns.take(m))).len() != MESHING_QUOTA
    &&& n == columns.len() || (0 < n && dirty(columns.take(n)).len() == MESHING_QUOTA)
}

/// The dirty sections of a chunk are no more than its sections.
proof fn lemma_dirty_in_len(x: i32, z: i32, sections: Seq<Section>)
    ensures
        dirty_in(x, z, sections).len() <= sections.len(),
    decreases sections.len(),
{
    if sections.len() > 0 {
        lemma_dirty_in_len(x, z, sections.drop_last());
    }
}

/// The dirty sections are no more than the sections of all chunks.
proof fn lemma_dirty_len(columns: Seq<Column>)
    requires
        all_wf(columns),
    ensures
        dirty(columns).len() <= columns.len() * SECTIONS,
    decreases columns.len(),
{
    if columns.len() > 0 {
        assert(columns.last() == columns[columns.len() - 1]);
        assert forall|i: int| 0 <= i < columns.drop_last().len() implies (
        #[trigger] columns.drop_last()[i]).wf() by {
            assert(columns.drop_last()[i] == columns[i]);
        }
        lemma_dirty_len(columns.drop_last());
        lemma_dirty_in_len(columns.last().x, columns.last().z, columns.last().sections@);
    }
}

/// Counts the dirty sections of a chunk.
fn count_dirty_in(c: &Column) -> (count: usize)
    ensures
        count == dirty_in(c.x, c.z, c.sections@).len(),
{
    let mut count: usize = 0;
    let mut y: usize = 0;
    assert(c.sections@.take(0) =~= seq![]);
    while y < c.sections.len()
        invariant
            y <= c.sections@.len(),
            count <= y,
            count == dirty_in(c.x, c.z, c.sections@.take(y as int)).len(),
        decreases c.sections@.len() - y,
    {
        assert(c.sections@.take(y + 1).drop_last() =~= c.sections@.take(y as int));
        if c.sections[y] == Section::Dirty {
            count = count + 1;
        }
        y = y + 1;
    }
    assert(c.sections@.take(y as int) =~= c.sections@);
    count
}

/// Counts the sections whose meshes are out of date.
pub fn dirty_section_count(columns: &Vec<Column>) -> (count: usize)
    requires
        all_wf(columns@),
        columns@.len() * SECTIONS <= usize::MAX,
    ensures
        count == dirty(columns@).len(),
{
    let mut count: usize = 0;
    let mut i: usize = 0;
    assert(columns@.take(0) =~= seq![]);
    while i < columns.len()
        invariant
            i <= columns@.len(),
            all_wf(columns@),
            columns@.len() * SECTIONS <= usize::MAX,
            count == dirty(columns@.take(i as int)).len(),
        decreases columns@.len() - i,
    {
        proof {
            let next = columns@.take(i + 1);
            assert(next.drop_last() =~= columns@.take(i as int));
            assert forall|j: int| 0 <= j < next.len() implies (#[trigger] next[j]).wf() by {
                assert(next[j] == columns@[j]);
            }
            lemma_dirty_len(next);
        }
        count = count + count_dirty_in(&columns[i]);
        i = i + 1;
    }
    assert(columns@.take(i as int) =~= columns@);
    count
}

/// Whether a frame that meets the chunks `before` makes meshes of the sections `jobs`, in
/// this order, and leaves the chunks `after`, when it deals with the first `n`.
pub open spec fn is_pass(
    before: Seq<Column>,
    n: int,
    jobs: Seq<SectionPos>,
    after: Seq<Column>,
) -> bool {
    &&& meshes_first(before, n)
    &&& jobs == dirty(before.take(n))
    &&& after.len() == before.len()
    &&& forall|i: int| 0 <= i < n ==> is_cleaned(#[trigger] after[i], before[i])
    &&& forall|i: int| n <= i < before.len() ==> #[trigger] after[i] == before[i]
}

/// Takes the dirty sections of a chunk for meshing.
fn mesh_column(c: &mut Column, jobs: &mut Vec<SectionPos>)
    requires
        old(c).wf(),
    ensures
        is_cleaned(*final(c), *old(c)),
        final(jobs)@ == old(jobs)@ + dirty_in(old(c).x, old(c).z, old(c).sections@),
{
    let ghost before = *c;
    let ghost sofar = jobs@;
    let mut y: usize = 0;
    assert(before.sections@.take(0) =~= seq![]);
    assert(sofar + dirty_in(c.x, c.z, seq![]) =~= sofar);
    while y < SECTIONS
        invariant
            y <= SECTIONS,
            before.wf(),
            c.x == before.x,
            c.z == before.z,
            c.sections@.len() == SECTIONS,
            forall|i: int|
                0 <= i < y ==> #[trigger] c.sections@[i] == cleaned(before.sections@[i]),
            forall|i: int| y <= i < SECTIONS ==> #[trigger] c.sections@[i] == before.sections@[i],
            jobs@ == sofar + dirty_in(before.x, before.z, before.sections@.take(y as int)),
        decreases SECTIONS - y,
    {
        assert(before.sections@.take(y + 1).drop_last() =~= before.sections@.take(y as int));
        if c.sections[y] == Section::Dirty {
            jobs.push(SectionPos { x: c.x, y: y as i32, z: c.z });
            c.sections.set(y, Section::Clean);
        }
        y = y + 1;
        assert(jobs@ =~= sofar + dirty_in(before.x, before.z, before.sections@.take(y as int)));
    }
    assert(before.sections@.take(y as int) =~= before.sections@);
    assert(c.sections@ =~= before.sections@.map_values(|s: Section| cleaned(s)));
}

/// Takes dirty sections for meshing, chunk by chunk in the order that is given. Within a
/// chunk the quota is not looked at, and a pass that has overstepped it goes on to the end.
pub fn mesh_pass(columns: &mut Vec<Column>) -> (jobs: Vec<SectionPos>)
    requires
        all_wf(old(columns)@),
        old(columns)@.len() <= 0x0800_0000,
    ensures
        exists|n: int| #[trigger] is_pass(old(columns)@, n, jobs@, final(columns)@),
{
    let ghost before = columns@;
    let mut jobs: Vec<SectionPos> = Vec::new();
    let mut quota: i32 = MESHING_QUOTA;
    let mut i: usize = 0;
    let total: usize = columns.len();
    assert(before.take(0) =~= seq![]);
    while i < total
        invariant
            before == old(columns)@,
            i <= total == before.len(),
            total <= 0x0800_0000,
            all_wf(before),
            columns@.len() == before.len(),
            forall|j: int| 0 <= j < i ==> is_cleaned(#[trigger] columns@[j], before[j]),
            forall|j: int| i <= j < before.len() ==> #[trigger] columns@[j] == before[j],
            jobs@ == dirty(before.take(i as int)),
            quota == MESHING_QUOTA - jobs@.len(),
            forall|m: int|
                0 < m <= i ==> (#[trigger] dirty(before.take(m))).len() != MESHING_QUOTA,
        decreases total - i,
    {
        proof {
            let next = before.take(i + 1);
            assert(next.drop_last() =~= before.take(i as int));
            assert forall|j: int| 0 <= j < next.len() implies (#[trigger] next[j]).wf() by {
                assert(next[j] == before[j]);
            }
            lemma_dirty_len(next);
            assert(columns@[i as int] == before[i as int]);
            assert(before[i as int].wf());
        }
        let had: usize = jobs.len();
        mesh_column(&mut columns[i], &mut jobs);
        let made: usize = jobs.len() - had;
        proof {
            lemma_dirty_in_len(
                before[i as int].x,
                before[i as int].z,
                before[i as int].sections@,
            );
        }
        quota = quota - made as i32;
        i = i + 1;
        if quota == 0 {
            assert(is_pass(before, i as int, jobs@, columns@));
            return jobs;
        }
    }
    assert(before.take(i as int) =~= before);
    assert(is_pass(before, i as int, jobs@, columns@));
    jobs
}

/// How far a frame goes is fixed by the chunks that it meets and their order.
pub proof fn pass_is_determined(columns: Seq<Column>, n: int, m: int)
    requires
        meshes_first(columns, n),
        meshes_first(columns, m),
    ensures
        n == m,
{
    if n < m {
        assert(dirty(columns.take(n)).len() != MESHING_QUOTA || n == 0);
    } else if m < n {
        assert(dirty(columns.take(m)).len() != MESHING_QUOTA || m == 0);
    }
}

/// The dirty sections of chunks with others behind them.
pub proof fn lemma_dirty_of_both(first: Seq<Column>, more: Seq<Column>)
    ensures
        dirty(first + more) == dirty(first) + dirty(more),
    decreases more.len(),
{
    if more.len() == 0 {
        assert(first + more =~= first);
        assert(dirty(first) + dirty(more) =~= dirty(first));
    } else {
        assert((first + more).drop_last() =~= first + more.drop_last());
        lemma_dirty_of_both(first, more.drop_last());
        assert(dirty(first + more) =~= dirty(first) + dirty(more));
    }
}

/// A section whose mesh is up to date is not dirty.
proof fn lemma_cleaned_section(x: i32, z: i32, sections: Seq<Section>)
    requires
        forall|i: int| 0 <= i < sections.len() ==> !(#[trigger] sections[i] is Dirty),
    ensures
        dirty_in(x, z, sections).len() == 0,
    decreases sections.len(),
{
    if sections.len() > 0 {
        assert(!(sections[sections.len() - 1] is Dirty));
        assert forall|i: int| 0 <= i < sections.drop_last().len() implies !(
        #[trigger] sections.drop_last()[i] is Dirty) by {
            assert(sections.drop_last()[i] == sections[i]);
        }
        lemma_cleaned_section(x, z, sections.drop_last());
    }
}

/// Chunks that were dealt with have no dirty sections left.
proof fn lemma_cleaned(after: Seq<Column>, before: Seq<Column>)
    requires
        after.len() == before.len(),
        forall|i: int| 0 <= i < after.len() ==> is_cleaned(#[trigger] after[i], before[i]),
    ensures
        dirty(after).len() == 0,
    decreases after.len(),
{
    if after.len() > 0 {
        let c = after.last();
        assert(is_cleaned(after[after.len() - 1], before[after.len() - 1]));
        lemma_cleaned_section(c.x, c.z, c.sections@);
        assert forall|i: int| 0 <= i < after.drop_last().len() implies is_cleaned(
            #[trigger] after.drop_last()[i],
            before.drop_last()[i],
        ) by {
            assert(after.drop_last()[i] == after[i]);
        }
        lemma_cleaned(after.drop_last(), before.drop_last());
    }
}

/// A pass takes sections off the dirty ones and adds none: those that wait after it are
/// those that waited before it, without the ones that it took, in their order.
pub proof fn pass_takes_the_first(
    before: Seq<Column>,
    n: int,
    jobs: Seq<SectionPos>,
    after: Seq<Column>,
)
    requires
        is_pass(before, n, jobs, after),
    ensures
        dirty(before) == jobs + dirty(after),
{
    assert(before =~= before.take(n) + before.skip(n));
    assert(after =~= after.take(n) + after.skip(n));
    lemma_dirty_of_both(before.take(n), before.skip(n));
    lemma_dirty_of_both(after.take(n), after.skip(n));
    assert forall|i: int| 0 <= i < n implies is_cleaned(
        #[trigger] after.take(n)[i],
        before.take(n)[i],
    ) by {
        assert(after.take(n)[i] == after[i]);
    }
    lemma_cleaned(after.take(n), before.take(n));
    assert(after.skip(n) =~= before.skip(n));
    assert(dirty(after) =~= dirty(before.skip(n)));
}

/// A pass leaves dirty sections waiting only where it made just as many meshes as its quota
/// says; so where there are any to begin with, it makes some.
pub proof fn pass_makes_progress(
    before: Seq<Column>,
    n: int,
    jobs: Seq<SectionPos>,
    after: Seq<Column>,
)
    requires
        is_pass(before, n, jobs, after),
    ensures
        dirty(after).len() > 0 ==> jobs.len() == MESHING_QUOTA,
        dirty(before).len() > 0 ==> dirty(after).len() < dirty(before).len(),
{
    pass_takes_the_first(before, n, jobs, after);
    if n == before.len() {
        assert(before.take(n) =~= before);
        assert(jobs.len() + dirty(after).len() == dirty(before).len());
    }
}

} // verus!
