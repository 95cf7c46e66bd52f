use vstd::prelude::*;

verus! {

/// One row of the instruction-offset to source-location table that a unit's
/// line-number program yields. `file` indexes the owning map's file table.
/// An `end_sequence` row closes the preceding address range: it bounds a
/// lookup but is never itself a queryable target.
#[derive(Clone, Copy, PartialEq, Eq, Structural, Debug)]
pub struct LineRow {
    pub offset: u64,
    pub file: u64,
    pub line: u64,
    pub column: u64,
    pub is_stmt: bool,
    pub end_sequence: bool,
}

/// A resolved source location, answered to offset queries.
pub struct LineInfo {
    pub file: String,
    pub line: u64,
    pub column: u64,
}

/// Rows of all units merged into one table, sorted by offset, plus the merged
/// file-name table the rows index into.
pub struct DwarfSourceMap {
    pub rows: Vec<LineRow>,
    pub files: Vec<String>,
}

/// Offsets never decrease along the row table.
pub open spec fn rows_sorted(rows: Seq<LineRow>) -> bool {
    forall|i: int, j: int| 0 <= i <= j < rows.len() ==> rows[i].offset <= rows[j].offset
}

/// Every row's file index points into the file table.
pub open spec fn rows_files_ok(rows: Seq<LineRow>, n_files: int) -> bool {
    forall|i: int| 0 <= i < rows.len() ==> rows[i].file < n_files
}

/// Index of the row with the greatest offset at most `offset`; among equal
/// offsets, the last one. `None` when every row lies above `offset`.
pub open spec fn floor_row_index(rows: Seq<LineRow>, offset: u64) -> Option<int>
    decreases rows.len(),
{
    if rows.len() == 0 {
        None
    } else if rows.last().offset <= offset {
        Some(rows.len() - 1)
    } else {
        floor_row_index(rows.drop_last(), offset)
    }
}

/// The floor row is pinned down by: it is at most `offset`, and its successor
/// (if any) is above `offset`.
pub open spec fn is_floor_row(rows: Seq<LineRow>, offset: u64, i: int) -> bool {
    &&& 0 <= i < rows.len()
    &&& rows[i].offset <= offset
    &&& (i == rows.len() - 1 || rows[i + 1].offset > offset)
}

pub proof fn lemma_floor_row_index_some(rows: Seq<LineRow>, offset: u64, i: int)
    requires
        rows_sorted(rows),
        is_floor_row(rows, offset, i),
    ensures
        floor_row_index(rows, offset) == Some(i),
    decreases rows.len(),
{
    if rows.last().offset <= offset {
        if i < rows.len() - 1 {
            assert(rows[i + 1].offset <= rows[rows.len() - 1].offset);
        }
    } else {
        assert(i != rows.len() - 1);
        assert(is_floor_row(rows.drop_last(), offset, i));
        lemma_floor_row_index_some(rows.drop_last(), offset, i);
    }
}

pub proof fn lemma_floor_row_index_none(rows: Seq<LineRow>, offset: u64)
    requires
        forall|i: int| 0 <= i < rows.len() ==> rows[i].offset > offset,
    ensures
        floor_row_index(rows, offset) is None,
    decreases rows.len(),
{
    if rows.len() > 0 {
        lemma_floor_row_index_none(rows.drop_last(), offset);
    }
}

/// What the floor index means, in both outcomes: a found index is the floor,
/// and no index is found exactly when every row lies above the offset.
pub proof fn lemma_floor_row_index_props(rows: Seq<LineRow>, offset: u64)
    ensures
        match floor_row_index(rows, offset) {
            Some(i) => is_floor_row(rows, offset, i),
            None => forall|i: int| 0 <= i < rows.len() ==> #[trigger] rows[i].offset > offset,
        },
    decreases rows.len(),
{
    if rows.len() == 0 {
    } else if rows.last().offset <= offset {
    } else {
        lemma_floor_row_index_props(rows.drop_last(), offset);
        match floor_row_index(rows.drop_last(), offset) {
            Some(i) => {
                assert(rows.drop_last()[i] == rows[i]);
                if i < rows.len() - 2 {
                    assert(rows.drop_last()[i + 1] == rows[i + 1]);
                }
            },
            None => {
                assert forall|i: int| 0 <= i < rows.len() implies
                    #[trigger] rows[i].offset > offset by {
                    if i < rows.len() - 1 {
                        assert(rows.drop_last()[i] == rows[i]);
                    }
                }
            },
        }
    }
}

/// The row a location query resolves to: the floor row, unless it is an
/// end-of-sequence marker (the query offset then lies past the rows of the
/// unit that owns the floor row).
pub open spec fn spec_find_row(rows: Seq<LineRow>, offset: u64) -> Option<int> {
    match floor_row_index(rows, offset) {
        None => None,
        Some(i) => if rows[i].end_sequence {
            None
        } else {
            Some(i)
        },
    }
}

/// Index of the first statement row matching (file, line) exactly, scanning
/// from `from` onward.
pub open spec fn first_match_from(
    rows: Seq<LineRow>,
    file: Seq<char>,
    files: Seq<Seq<char>>,
    line: u64,
    from: int,
) -> Option<int>
    decreases rows.len() - from,
{
    if from < 0 || from >= rows.len() {
        None
    } else if row_matches(rows[from], file, files, line) {
        Some(from)
    } else {
        first_match_from(rows, file, files, line, from + 1)
    }
}

/// A row answers a (file, line) query when it is a statement row, not an
/// end-of-sequence marker, and names that file and line.
pub open spec fn row_matches(
    row: LineRow,
    file: Seq<char>,
    files: Seq<Seq<char>>,
    line: u64,
) -> bool {
    &&& row.is_stmt
    &&& !row.end_sequence
    &&& row.line == line
    &&& 0 <= row.file < files.len() && files[row.file as int] == file
}

/// Rows yielded by one unit's line-number program, with that unit's own
/// file-name table; row file indices are unit-local.
pub struct UnitSourceRows {
    pub rows: Vec<LineRow>,
    pub files: Vec<String>,
}

/// `row` placed into `s` directly after the last element whose offset is at
/// most `row.offset`, so equal offsets keep their arrival order.
pub open spec fn insert_row(s: Seq<LineRow>, row: LineRow) -> Seq<LineRow>
    decreases s.len(),
{
    if s.len() == 0 {
        seq![row]
    } else if s.last().offset <= row.offset {
        s.push(row)
    } else {
        insert_row(s.drop_last(), row).push(s.last())
    }
}

/// Every row of `rows` inserted into `s` in order.
pub open spec fn insert_all(s: Seq<LineRow>, rows: Seq<LineRow>) -> Seq<LineRow>
    decreases rows.len(),
{
    if rows.len() == 0 {
        s
    } else {
        insert_all(insert_row(s, rows.first()), rows.drop_first())
    }
}

/// Unit-local file indices shifted up by `base`, the size of the merged file
/// table before this unit's files were appended.
pub open spec fn remap_rows(rows: Seq<LineRow>, base: int) -> Seq<LineRow> {
    rows.map(|i: int, r: LineRow| LineRow { file: (base + r.file) as u64, ..r })
}

/// The merged file table over a prefix of units.
pub open spec fn build_files(units: Seq<UnitSourceRows>) -> Seq<String>
    decreases units.len(),
{
    if units.len() == 0 {
        Seq::empty()
    } else {
        build_files(units.drop_last()) + units.last().files@
    }
}

/// The merged, offset-sorted row table over a prefix of units.
pub open spec fn build_rows(units: Seq<UnitSourceRows>) -> Seq<LineRow>
    decreases units.len(),
{
    if units.len() == 0 {
        Seq::empty()
    } else {
        insert_all(
            build_rows(units.drop_last()),
            remap_rows(units.last().rows@, build_files(units.drop_last()).len() as int),
        )
    }
}

proof fn lemma_insert_row_sorted(s: Seq<LineRow>, row: LineRow)
    requires
        rows_sorted(s),
    ensures
        rows_sorted(insert_row(s, row)),
        insert_row(s, row).len() == s.len() + 1,
        forall|i: int| 0 <= i < insert_row(s, row).len() ==>
            (#[trigger] insert_row(s, row)[i] == row || s.contains(insert_row(s, row)[i])),
    decreases s.len(),
{
    let t = insert_row(s, row);
    if s.len() == 0 {
    } else if s.last().offset <= row.offset {
        assert forall|i: int, j: int| 0 <= i <= j < t.len() implies t[i].offset
            <= t[j].offset by {
            if j < t.len() - 1 {
                assert(t[i] == s[i] && t[j] == s[j]);
            } else if i < t.len() - 1 {
                assert(t[i] == s[i]);
                assert(s[i].offset <= s.last().offset);
            }
        }
        assert forall|i: int| 0 <= i < t.len() implies (t[i] == row || s.contains(t[i])) by {
            if i < t.len() - 1 {
                assert(t[i] == s[i]);
            }
        }
    } else {
        assert(rows_sorted(s.drop_last())) by {
            assert(forall|i: int, j: int| 0 <= i <= j < s.len() - 1 ==>
                s.drop_last()[i] == s[i] && s.drop_last()[j] == s[j]);
        }
        lemma_insert_row_sorted(s.drop_last(), row);
        let u = insert_row(s.drop_last(), row);
        assert forall|i: int, j: int| 0 <= i <= j < t.len() implies t[i].offset
            <= t[j].offset by {
            if j == t.len() - 1 && i < t.len() - 1 {
                assert(t[i] == u[i]);
                assert(u[i] == row || s.drop_last().contains(u[i]));
                if s.drop_last().contains(u[i]) {
                    let k = choose|k: int| 0 <= k < s.len() - 1 && s.drop_last()[k] == u[i];
                    assert(s[k] == u[i]);
                    assert(s[k].offset <= s.last().offset);
                }
            } else if j < t.len() - 1 {
                assert(t[i] == u[i] && t[j] == u[j]);
            }
        }
        assert forall|i: int| 0 <= i < t.len() implies (t[i] == row || s.contains(t[i])) by {
            if i < t.len() - 1 {
                assert(t[i] == u[i]);
                if s.drop_last().contains(u[i]) {
                    let k = choose|k: int| 0 <= k < s.len() - 1 && s.drop_last()[k] == u[i];
                    assert(s[k] == u[i]);
                }
            } else {
                assert(t[i] == s.last());
            }
        }
    }
}

proof fn lemma_insert_row_at(s: Seq<LineRow>, row: LineRow, p: int)
    requires
        0 <= p <= s.len(),
        p == 0 || s[p - 1].offset <= row.offset,
        forall|k: int| p <= k < s.len() ==> s[k].offset > row.offset,
    ensures
        insert_row(s, row) == s.insert(p, row),
    decreases s.len(),
{
    if s.len() == 0 {
        assert(insert_row(s, row) =~= s.insert(0, row));
    } else if s.last().offset <= row.offset {
        assert(p == s.len());
        assert(insert_row(s, row) =~= s.insert(p, row));
    } else {
        assert(p < s.len());
        assert(forall|k: int| p <= k < s.len() - 1 ==> s.drop_last()[k] == s[k]);
        assert(p == 0 || s.drop_last()[p - 1] == s[p - 1]);
        lemma_insert_row_at(s.drop_last(), row, p);
        assert(insert_row(s, row) =~= s.insert(p, row));
    }
}

/// Appending one row keeps `insert_all` a row-by-row fold.
proof fn lemma_insert_all_push(s: Seq<LineRow>, rows: Seq<LineRow>, row: LineRow)
    ensures
        insert_all(s, rows.push(row)) == insert_row(insert_all(s, rows), row),
    decreases rows.len(),
{
    if rows.len() == 0 {
        assert(rows.push(row).drop_first() =~= Seq::<LineRow>::empty());
        assert(rows.push(row).first() == row);
        assert(insert_all(s, rows.push(row))
            == insert_all(insert_row(s, row), Seq::<LineRow>::empty()));
        assert(insert_all(s, rows) == s);
    } else {
        assert(rows.push(row).first() == rows.first());
        assert(rows.push(row).drop_first() =~= rows.drop_first().push(row));
        assert(insert_all(s, rows.push(row))
            == insert_all(insert_row(s, rows.first()), rows.drop_first().push(row)));
        lemma_insert_all_push(insert_row(s, rows.first()), rows.drop_first(), row);
        assert(insert_all(s, rows)
            == insert_all(insert_row(s, rows.first()), rows.drop_first()));
    }
}

/// `row` placed into the sorted vector at its stable insertion point.
fn insert_row_exec(rows: &mut Vec<LineRow>, row: LineRow)
    ensures
        final(rows)@ == insert_row(old(rows)@, row),
{
    let mut p: usize = rows.len();
    while p > 0 && rows[p - 1].offset > row.offset
        invariant
            p <= rows@.len(),
            rows@ == old(rows)@,
            forall|k: int| p <= k < rows@.len() ==> #[trigger] rows@[k].offset > row.offset,
        decreases p,
    {
        p = p - 1;
    }
    proof {
        lemma_insert_row_at(rows@, row, p as int);
    }
    rows.insert(p, row);
}

/// What a first-match index means, in both outcomes: a found index is the
/// first matching row at or past `from`, and none is found exactly when no
/// row at or past `from` matches.
pub proof fn lemma_first_match_props(
    rows: Seq<LineRow>,
    file: Seq<char>,
    files: Seq<Seq<char>>,
    line: u64,
    from: int,
)
    requires
        0 <= from,
    ensures
        match first_match_from(rows, file, files, line, from) {
            Some(j) => {
                &&& from <= j < rows.len()
                &&& row_matches(rows[j], file, files, line)
                &&& forall|k: int| from <= k < j ==> !row_matches(#[trigger] rows[k], file, files, line)
            },
            None => forall|k: int| from <= k < rows.len()
                ==> !row_matches(#[trigger] rows[k], file, files, line),
        },
    decreases rows.len() - from,
{
    if from < rows.len() && !row_matches(rows[from], file, files, line) {
        lemma_first_match_props(rows, file, files, line, from + 1);
    }
}

/// Offset-to-line lookup is monotonic: of two offsets in order, the resolved
/// rows come in the same order in the merged table, so the source locations
/// are non-decreasing in source order.
pub proof fn lemma_find_line_monotonic(m: &DwarfSourceMap, o1: u64, o2: u64)
    requires
        m.wf(),
        o1 <= o2,
        spec_find_row(m.rows@, o1) is Some,
        spec_find_row(m.rows@, o2) is Some,
    ensures
        spec_find_row(m.rows@, o1)->Some_0 <= spec_find_row(m.rows@, o2)->Some_0,
{
    lemma_floor_row_index_props(m.rows@, o1);
    lemma_floor_row_index_props(m.rows@, o2);
    let i1 = spec_find_row(m.rows@, o1)->Some_0;
    let i2 = spec_find_row(m.rows@, o2)->Some_0;
    if i1 > i2 {
        assert(m.rows@[i2 + 1].offset > o2);
        assert(m.rows@[i2 + 1].offset <= m.rows@[i1].offset);
        assert(m.rows@[i1].offset <= o1);
    }
}

/// Rows never share an offset.
pub open spec fn rows_strictly_sorted(rows: Seq<LineRow>) -> bool {
    forall|i: int, j: int| 0 <= i < j < rows.len() ==> rows[i].offset < rows[j].offset
}

/// Line-to-address round trip: when an offset resolves to a statement row
/// that is the first statement row bearing its (file, line), then querying
/// that (file, line) yields that row's offset, and looking that offset up
/// resolves to the very same row, hence the same location.
pub proof fn lemma_address_line_round_trip(m: &DwarfSourceMap, offset: u64)
    requires
        m.wf(),
        rows_strictly_sorted(m.rows@),
        spec_find_row(m.rows@, offset) is Some,
        ({
            let i = spec_find_row(m.rows@, offset)->Some_0;
            &&& m.rows@[i].is_stmt
            &&& first_match_from(
                m.rows@,
                m.spec_files()[m.rows@[i].file as int],
                m.spec_files(),
                m.rows@[i].line,
                0,
            ) == Some(i)
        }),
    ensures
        ({
            let i = spec_find_row(m.rows@, offset)->Some_0;
            spec_find_row(m.rows@, m.rows@[i].offset) == Some(i)
        }),
{
    let i = spec_find_row(m.rows@, offset)->Some_0;
    lemma_floor_row_index_props(m.rows@, offset);
    assert(is_floor_row(m.rows@, m.rows@[i].offset, i));
    lemma_floor_row_index_some(m.rows@, m.rows@[i].offset, i);
}

impl DwarfSourceMap {
    /// A map with no rows and no files, ready to take units.
    pub fn empty() -> (r: DwarfSourceMap)
        ensures
            r.wf(),
            r.rows@ == Seq::<LineRow>::empty(),
            r.files@ == Seq::<String>::empty(),
    {
        DwarfSourceMap { rows: Vec::new(), files: Vec::new() }
    }

    /// Merge one unit's rows into the global table: the unit's files are
    /// appended to the file table, its rows are re-indexed against the merged
    /// table and placed at their sorted positions, arrival order breaking ties.
    pub fn add_unit(&mut self, unit: &UnitSourceRows)
        requires
            old(self).wf(),
            rows_files_ok(unit.rows@, unit.files@.len() as int),
        ensures
            final(self).wf(),
            final(self).files@ == old(self).files@ + unit.files@,
            final(self).rows@ == insert_all(
                old(self).rows@,
                remap_rows(unit.rows@, old(self).files@.len() as int),
            ),
    {
        let base = self.files.len();
        let mut i: usize = 0;
        while i < unit.files.len()
            invariant
                i <= unit.files@.len(),
                self.rows@ == old(self).rows@,
                self.files@ == old(self).files@ + unit.files@.subrange(0, i as int),
            decreases unit.files@.len() - i,
        {
            self.files.push(unit.files[i].clone());
            proof {
                assert(self.files@ =~= old(self).files@ + unit.files@.subrange(0, i + 1));
            }
            i = i + 1;
        }
        proof {
            assert(unit.files@.subrange(0, unit.files@.len() as int) =~= unit.files@);
        }
        let total = self.files.len();
        let ghost remapped = remap_rows(unit.rows@, base as int);
        let mut k: usize = 0;
        while k < unit.rows.len()
            invariant
                k <= unit.rows@.len(),
                base == old(self).files@.len(),
                total == base + unit.files@.len(),
                rows_files_ok(unit.rows@, unit.files@.len() as int),
                self.files@ == old(self).files@ + unit.files@,
                total == self.files@.len(),
                old(self).wf(),
                rows_sorted(self.rows@),
                rows_files_ok(self.rows@, total as int),
                remapped == remap_rows(unit.rows@, base as int),
                self.rows@ == insert_all(old(self).rows@, remapped.subrange(0, k as int)),
            decreases unit.rows@.len() - k,
        {
            let r = unit.rows[k];
            proof {
                assert(r.file < unit.files@.len());
            }
            let nf: u64 = base as u64 + r.file;
            let row2 = LineRow { file: nf, ..r };
            proof {
                assert(remapped[k as int] == row2);
                lemma_insert_row_sorted(self.rows@, row2);
                lemma_insert_all_push(
                    old(self).rows@,
                    remapped.subrange(0, k as int),
                    row2,
                );
                assert(remapped.subrange(0, k as int).push(row2)
                    =~= remapped.subrange(0, k + 1));
            }
            let ghost before = self.rows@;
            insert_row_exec(&mut self.rows, row2);
            proof {
                assert forall|j: int| 0 <= j < self.rows@.len() implies
                    #[trigger] self.rows@[j].file < total by {
                    assert(self.rows@[j] == row2 || before.contains(self.rows@[j]));
                    if before.contains(self.rows@[j]) {
                        let w = choose|w: int| 0 <= w < before.len()
                            && before[w] == self.rows@[j];
                        assert(before[w].file < total);
                    }
                }
            }
            k = k + 1;
        }
        proof {
            assert(remapped.subrange(0, unit.rows@.len() as int) =~= remapped);
        }
    }

    /// The global source map built from every unit's rows, in unit order.
    /// The result is a pure function of the input, so two builds from the
    /// same units agree exactly.
    pub fn new(units: &Vec<UnitSourceRows>) -> (r: DwarfSourceMap)
        requires
            forall|u: int| 0 <= u < units@.len() ==>
                rows_files_ok(#[trigger] units@[u].rows@, units@[u].files@.len() as int),
        ensures
            r.wf(),
            r.files@ == build_files(units@),
            r.rows@ == build_rows(units@),
    {
        let mut m = DwarfSourceMap::empty();
        let mut u: usize = 0;
        while u < units.len()
            invariant
                u <= units@.len(),
                forall|w: int| 0 <= w < units@.len() ==>
                    rows_files_ok(#[trigger] units@[w].rows@, units@[w].files@.len() as int),
                m.wf(),
                m.files@ == build_files(units@.subrange(0, u as int)),
                m.rows@ == build_rows(units@.subrange(0, u as int)),
            decreases units@.len() - u,
        {
            m.add_unit(&units[u]);
            proof {
                assert(units@.subrange(0, u + 1).drop_last() =~= units@.subrange(0, u as int));
                assert(units@.subrange(0, u + 1).last() == units@[u as int]);
            }
            u = u + 1;
        }
        proof {
            assert(units@.subrange(0, units@.len() as int) =~= units@);
        }
        m
    }

    /// The map's internal invariant: rows sorted by offset, file indices in range.
    pub open spec fn wf(&self) -> bool {
        &&& rows_sorted(self.rows@)
        &&& rows_files_ok(self.rows@, self.files@.len() as int)
    }

    pub open spec fn spec_files(&self) -> Seq<Seq<char>> {
        self.files@.map(|i: int, f: String| f@)
    }

    /// Floor lookup: the source location whose row has the greatest offset at
    /// most `offset`; none when `offset` precedes every row or falls past the
    /// end of its owning unit's rows.
    pub fn find_line_info(&self, offset: u64) -> (r: Option<LineInfo>)
        requires
            self.wf(),
        ensures
            match r {
                None => spec_find_row(self.rows@, offset) is None,
                Some(li) => {
                    &&& spec_find_row(self.rows@, offset) matches Some(i)
                    &&& li.file@ == self.spec_files()[self.rows@[i].file as int]
                    &&& li.line == self.rows@[i].line
                    &&& li.column == self.rows@[i].column
                },
            },
    {
        let n = self.rows.len();
        if n == 0 {
            proof {
                lemma_floor_row_index_none(self.rows@, offset);
            }
            return None;
        }
        if self.rows[0].offset > offset {
            proof {
                assert(forall|i: int| 0 <= i < self.rows@.len() ==>
                    self.rows@[0].offset <= #[trigger] self.rows@[i].offset);
                lemma_floor_row_index_none(self.rows@, offset);
            }
            return None;
        }
        // Binary search for the last index whose offset is at most `offset`.
        let mut lo: usize = 0;
        let mut hi: usize = n;
        while hi - lo > 1
            invariant
                self.wf(),
                0 <= lo < hi <= n,
                n == self.rows@.len(),
                self.rows@[lo as int].offset <= offset,
                hi < n ==> self.rows@[hi as int].offset > offset,
            decreases hi - lo,
        {
            let mid = lo + (hi - lo) / 2;
            if self.rows[mid].offset <= offset {
                lo = mid;
            } else {
                hi = mid;
            }
        }
        proof {
            assert(is_floor_row(self.rows@, offset, lo as int));
            lemma_floor_row_index_some(self.rows@, offset, lo as int);
        }
        let row = self.rows[lo];
        if row.end_sequence {
            assert(spec_find_row(self.rows@, offset) is None);
            None
        } else {
            proof {
                assert(row.file < self.files@.len());
                assert(self.files@.len() == self.files.len());
                assert(self.spec_files()[row.file as int] == self.files@[row.file as int]@);
            }
            let idx: usize = row.file as usize;
            Some(LineInfo {
                file: self.files[idx].clone(),
                line: row.line,
                column: row.column,
            })
        }
    }

    /// Reverse lookup: the offset of the first statement row matching
    /// (file, line) exactly; lowest offset wins because rows are sorted and
    /// the scan takes the first match in row order.
    pub fn find_address(&self, file: &String, line: u64) -> (r: Option<u64>)
        requires
            self.wf(),
        ensures
            match r {
                None => first_match_from(self.rows@, file@, self.spec_files(), line, 0) is None,
                Some(a) => {
                    &&& first_match_from(self.rows@, file@, self.spec_files(), line, 0)
                        matches Some(i)
                    &&& a == self.rows@[i].offset
                },
            },
    {
        let mut k: usize = 0;
        while k < self.rows.len()
            invariant
                self.wf(),
                0 <= k <= self.rows@.len(),
                first_match_from(self.rows@, file@, self.spec_files(), line, 0)
                    == first_match_from(self.rows@, file@, self.spec_files(), line, k as int),
            decreases self.rows@.len() - k,
        {
            let row = self.rows[k];
            proof {
                assert(row.file < self.files@.len());
                assert(self.files@.len() == self.files.len());
                assert(self.spec_files()[row.file as int] == self.files@[row.file as int]@);
            }
            let idx: usize = row.file as usize;
            if row.is_stmt && !row.end_sequence && row.line == line
                && self.files[idx] == *file {
                assert(row_matches(self.rows@[k as int], file@, self.spec_files(), line));
                return Some(row.offset);
            }
            assert(!row_matches(self.rows@[k as int], file@, self.spec_files(), line));
            k = k + 1;
        }
        None
    }
}

} // verus!
