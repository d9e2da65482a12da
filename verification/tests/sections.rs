use nautilus::client::sections::{dirty_section_count, mesh_pass, Column, Section, SectionPos};

/// A chunk whose lowest `dirty` sections are dirty and whose next one is clean.
fn column(x: i32, dirty: usize) -> Column {
    let mut sections = vec![Section::Absent; 16];
    for y in 0..dirty {
        sections[y] = Section::Dirty;
    }
    if dirty < 16 {
        sections[dirty] = Section::Clean;
    }
    Column { x, z: -x, sections }
}

fn chunks_of(jobs: &[SectionPos]) -> Vec<i32> {
    jobs.iter().map(|j| j.x).collect()
}

#[test]
fn dirty_sections_are_counted() {
    assert_eq!(dirty_section_count(&vec![]), 0);
    assert_eq!(dirty_section_count(&vec![column(0, 0), column(1, 0)]), 0);
    assert_eq!(dirty_section_count(&vec![column(0, 3), column(1, 16), column(2, 1)]), 20);
}

#[test]
fn dirty_sections_are_taken_from_the_lowest_up() {
    let mut columns = vec![column(1, 2), column(2, 0), column(3, 1)];
    columns[0].sections[9] = Section::Dirty;
    let jobs = mesh_pass(&mut columns);
    assert_eq!(
        jobs,
        vec![
            SectionPos { x: 1, y: 0, z: -1 },
            SectionPos { x: 1, y: 1, z: -1 },
            SectionPos { x: 1, y: 9, z: -1 },
            SectionPos { x: 3, y: 0, z: -3 },
        ]
    );
    assert_eq!(dirty_section_count(&columns), 0);
    assert_eq!(columns[0].sections[0], Section::Clean);
    assert_eq!(columns[0].sections[2], Section::Clean);
    assert_eq!(columns[0].sections[3], Section::Absent);
    assert_eq!(columns[0].sections[9], Section::Clean);
    assert_eq!((columns[0].x, columns[0].z), (1, -1));
}

#[test]
fn pass_stops_at_eight_sections() {
    let mut columns = vec![column(1, 5), column(2, 3), column(3, 4)];
    let jobs = mesh_pass(&mut columns);
    assert_eq!(chunks_of(&jobs), vec![1, 1, 1, 1, 1, 2, 2, 2]);
    assert_eq!(columns[2], column(3, 4));
    assert_eq!(dirty_section_count(&columns), 4);
    let jobs = mesh_pass(&mut columns);
    assert_eq!(chunks_of(&jobs), vec![3, 3, 3, 3]);
    assert_eq!(dirty_section_count(&columns), 0);
    assert!(mesh_pass(&mut columns).is_empty());
}

#[test]
fn pass_that_oversteps_the_quota_goes_on() {
    let mut columns = vec![column(1, 5), column(2, 4), column(3, 16), column(4, 1)];
    let jobs = mesh_pass(&mut columns);
    assert_eq!(jobs.len(), 26);
    assert_eq!(dirty_section_count(&columns), 0);
}

#[test]
fn pass_takes_a_chunk_whole() {
    let mut columns = vec![column(1, 16), column(2, 1)];
    let jobs = mesh_pass(&mut columns);
    assert_eq!(jobs.len(), 17);
    let mut columns = vec![column(1, 8), column(2, 1)];
    let jobs = mesh_pass(&mut columns);
    assert_eq!(jobs.len(), 8);
    assert_eq!(columns[1], column(2, 1));
}

#[test]
fn pass_over_nothing_does_nothing() {
    let mut columns: Vec<Column> = vec![];
    assert!(mesh_pass(&mut columns).is_empty());
    let mut columns = vec![column(1, 0)];
    assert!(mesh_pass(&mut columns).is_empty());
    assert_eq!(columns, vec![column(1, 0)]);
}
