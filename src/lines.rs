use vstd::prelude::*;

use crate::error::DebugError;

verus! {

/// A source position that a breakpoint can name: a file path and a 1-based
/// line number. Two breakpoints are the same when both fields are.
#[derive(Clone, Debug)]
pub struct Breakpoint {
    pub file: String,
    pub line_number: u64,
}

impl View for Breakpoint {
    type V = (Seq<char>, u64);

    open spec fn view(&self) -> (Seq<char>, u64) {
        (self.file@, self.line_number)
    }
}

impl PartialEq for Breakpoint {
    fn eq(&self, other: &Breakpoint) -> (r: bool) {
        self.line_number == other.line_number && self.file == other.file
    }
}

impl vstd::std_specs::cmp::PartialEqSpecImpl for Breakpoint {
    open spec fn obeys_eq_spec() -> bool {
        true
    }

    open spec fn eq_spec(&self, other: &Breakpoint) -> bool {
        self@ == other@
    }
}

impl Breakpoint {
    pub fn new(file: String, line_number: u64) -> (r: Breakpoint)
        ensures
            r.file@ == file@,
            r.line_number == line_number,
    {
        Breakpoint { file, line_number }
    }

    /// Whether `self` and `other` name the same position.
    pub fn same_position(&self, other: &Breakpoint) -> (r: bool)
        ensures
            r == (self@ == other@),
    {
        self.line_number == other.line_number && self.file == other.file
    }
}

impl std::str::FromStr for Breakpoint {
    type Err = DebugError;

    fn from_str(s: &str) -> Result<Breakpoint, DebugError> {
        parse_breakpoint(s)
    }
}

/// The source position found for an address: path and 1-based line.
#[derive(Clone, Debug)]
pub struct LinePosition {
    pub path: String,
    pub line_number: u64,
}

impl LinePosition {
    /// `path:line`, as the debugger prints a stop.
    pub fn to_text(&self) -> (r: String)
        ensures
            r@ == position_text(self.path@, self.line_number as int),
    {
        let mut r = self.path.clone();
        r.append(":");
        proof {
            reveal_strlit(":");
        }
        let digits = decimal_text(self.line_number);
        r.append(digits.as_str());
        r
    }
}

/// One row emitted by a line program, reduced to what the resolver reads:
/// its address, whether it ends a sequence, the canonical path of its file
/// (`None` when the file could not be resolved) and its line (`None` when
/// the row carries no line).
#[derive(Clone, Debug)]
pub struct LineRow {
    pub address: u64,
    pub end_sequence: bool,
    pub path: Option<String>,
    pub line: Option<u64>,
}

/// A row that can stand for a source position.
pub open spec fn row_usable(r: LineRow) -> bool {
    !r.end_sequence && r.path is Some && r.line is Some
}

/// The position that a usable row stands for.
pub open spec fn row_key(r: LineRow) -> (Seq<char>, u64) {
    (r.path->0@, r.line->0)
}

/// The position → address mapping that the rows define when each position
/// keeps the address of the first usable row that names it; later rows of
/// the same position are ignored.
pub open spec fn first_wins(rows: Seq<LineRow>) -> Map<(Seq<char>, u64), u64>
    decreases rows.len(),
{
    if rows.len() == 0 {
        Map::empty()
    } else {
        let prev = first_wins(rows.drop_last());
        let r = rows.last();
        if row_usable(r) && !prev.contains_key(row_key(r)) {
            prev.insert(row_key(r), r.address)
        } else {
            prev
        }
    }
}

/// `i` is the first usable row of `rows` whose position is `k`.
pub open spec fn first_row_of(rows: Seq<LineRow>, k: (Seq<char>, u64), i: int) -> bool {
    &&& 0 <= i < rows.len()
    &&& row_usable(rows[i])
    &&& row_key(rows[i]) == k
    &&& forall|j: int| 0 <= j < i && row_usable(rows[j]) ==> row_key(rows[j]) != k
}

/// Every position that a usable row names, and the address of the first
/// such row, is what `first_wins` holds.
pub proof fn lemma_first_wins_first_row(rows: Seq<LineRow>)
    ensures
        forall|k: (Seq<char>, u64)| #[trigger]
            first_wins(rows).contains_key(k) <==> exists|i: int|
                0 <= i < rows.len() && row_usable(rows[i]) && row_key(rows[i]) == k,
        forall|k: (Seq<char>, u64), i: int| #[trigger]
            first_row_of(rows, k, i) ==> first_wins(rows)[k] == rows[i].address,
    decreases rows.len(),
{
    if rows.len() > 0 {
        let prefix = rows.drop_last();
        lemma_first_wins_first_row(prefix);
        let n = rows.len() - 1;
        assert forall|k: (Seq<char>, u64)| #[trigger]
            first_wins(rows).contains_key(k) <==> exists|i: int|
                0 <= i < rows.len() && row_usable(rows[i]) && row_key(rows[i]) == k by {
            if first_wins(prefix).contains_key(k) {
                let i = choose|i: int|
                    0 <= i < prefix.len() && row_usable(prefix[i]) && row_key(prefix[i]) == k;
                assert(rows[i] == prefix[i]);
            }
            if exists|i: int| 0 <= i < rows.len() && row_usable(rows[i]) && row_key(rows[i]) == k {
                let i = choose|i: int|
                    0 <= i < rows.len() && row_usable(rows[i]) && row_key(rows[i]) == k;
                if i < n {
                    assert(prefix[i] == rows[i]);
                }
            }
        }
        assert forall|k: (Seq<char>, u64), i: int| #[trigger]
            first_row_of(rows, k, i) implies first_wins(rows)[k] == rows[i].address by {
            if i < n {
                assert(prefix[i] == rows[i]);
                assert forall|j: int| 0 <= j < i && row_usable(prefix[j]) implies row_key(
                    prefix[j],
                ) != k by {
                    assert(prefix[j] == rows[j]);
                }
                assert(first_row_of(prefix, k, i));
            } else {
                if first_wins(prefix).contains_key(k) {
                    let j = choose|j: int|
                        0 <= j < prefix.len() && row_usable(prefix[j]) && row_key(prefix[j]) == k;
                    assert(prefix[j] == rows[j]);
                }
            }
        }
    }
}

/// The table of legal breakpoint positions of a binary, each with the
/// file-relative address of the first instruction of its line.
pub struct BreakpointTable {
    entries: Vec<(Breakpoint, u64)>,
    map: Ghost<Map<(Seq<char>, u64), u64>>,
}

impl View for BreakpointTable {
    type V = Map<(Seq<char>, u64), u64>;

    closed spec fn view(&self) -> Map<(Seq<char>, u64), u64> {
        self.map@
    }
}

impl BreakpointTable {
    /// The entries are the table, one per position.
    pub closed spec fn wf(&self) -> bool {
        &&& forall|i: int|
            0 <= i < self.entries@.len() ==> #[trigger] self.map@.contains_key(
                self.entries@[i].0@,
            ) && self.map@[self.entries@[i].0@] == self.entries@[i].1
        &&& forall|k: (Seq<char>, u64)| #[trigger]
            self.map@.contains_key(k) ==> exists|i: int|
                0 <= i < self.entries@.len() && self.entries@[i].0@ == k
        &&& forall|i: int, j: int|
            0 <= i < j < self.entries@.len() ==> self.entries@[i].0@ != self.entries@[j].0@
    }

    /// An empty table.
    pub fn new() -> (t: BreakpointTable)
        ensures
            t.wf(),
            t@ == Map::<(Seq<char>, u64), u64>::empty(),
    {
        BreakpointTable { entries: Vec::new(), map: Ghost(Map::empty()) }
    }

    /// The number of positions in the table.
    pub fn len(&self) -> (r: usize)
        requires
            self.wf(),
        ensures
            r == self@.len(),
    {
        proof {
            self.lemma_len();
        }
        self.entries.len()
    }

    proof fn lemma_len(&self)
        requires
            self.wf(),
        ensures
            self@.dom().finite(),
            self@.len() == self.entries@.len(),
        decreases self.entries@.len(),
    {
        let keys = self.entries@.map_values(|e: (Breakpoint, u64)| e.0@);
        assert(keys.no_duplicates()) by {
            assert forall|i: int, j: int|
                0 <= i < keys.len() && 0 <= j < keys.len() && i != j implies keys[i] != keys[j] by {
                if i < j {
                } else {
                }
            }
        }
        assert(self@.dom() =~= keys.to_set()) by {
            assert forall|k: (Seq<char>, u64)| self@.dom().contains(k) implies keys.to_set().contains(
                k,
            ) by {
                let i = choose|i: int| 0 <= i < self.entries@.len() && self.entries@[i].0@ == k;
                assert(keys[i] == k);
            }
            assert forall|k: (Seq<char>, u64)| keys.to_set().contains(k) implies self@.dom().contains(
                k,
            ) by {
                let i = choose|i: int| 0 <= i < keys.len() && keys[i] == k;
                assert(self.map@.contains_key(self.entries@[i].0@));
            }
        }
        keys.unique_seq_to_set();
    }

    /// The index of the entry for `bp`, if the table holds its position.
    fn index_of(&self, bp: &Breakpoint) -> (r: Option<usize>)
        requires
            self.wf(),
        ensures
            match r {
                Some(i) => i < self.entries@.len() && self.entries@[i as int].0@ == bp@,
                None => !self@.contains_key(bp@),
            },
    {
        let mut i: usize = 0;
        while i < self.entries.len()
            invariant
                self.wf(),
                i <= self.entries@.len(),
                forall|j: int| 0 <= j < i ==> self.entries@[j].0@ != bp@,
            decreases self.entries@.len() - i,
        {
            if self.entries[i].0.same_position(bp) {
                return Some(i);
            }
            i = i + 1;
        }
        None
    }

    /// Whether `bp` is a legal breakpoint position.
    pub fn contains_key(&self, bp: &Breakpoint) -> (r: bool)
        requires
            self.wf(),
        ensures
            r == self@.contains_key(bp@),
    {
        self.index_of(bp).is_some()
    }

    /// The file-relative address recorded for `bp`.
    pub fn get(&self, bp: &Breakpoint) -> (r: Option<u64>)
        requires
            self.wf(),
        ensures
            r == (if self@.contains_key(bp@) {
                Some(self@[bp@])
            } else {
                None::<u64>
            }),
    {
        match self.index_of(bp) {
            Some(i) => Some(self.entries[i].1),
            None => None,
        }
    }

    /// Takes one line-program row into the table: a usable row whose position
    /// is not yet present adds that position with the row's address; any
    /// other row leaves the table as it was.
    pub fn record_row(&mut self, row: &LineRow)
        requires
            old(self).wf(),
        ensures
            final(self).wf(),
            final(self)@ == (if row_usable(*row) && !old(self)@.contains_key(row_key(*row)) {
                old(self)@.insert(row_key(*row), row.address)
            } else {
                old(self)@
            }),
    {
        if row.end_sequence {
            return ;
        }
        let path = match &row.path {
            Some(p) => p,
            None => return ,
        };
        let line = match row.line {
            Some(l) => l,
            None => return ,
        };
        let bp = Breakpoint { file: path.clone(), line_number: line };
        assert(bp@ == row_key(*row));
        if self.index_of(&bp).is_some() {
            return ;
        }
        let ghost old_entries = self.entries@;
        let ghost old_map = self.map@;
        self.entries.push((bp, row.address));
        self.map = Ghost(self.map@.insert(row_key(*row), row.address));
        assert forall|k: (Seq<char>, u64)| #[trigger]
            self.map@.contains_key(k) implies exists|i: int|
                0 <= i < self.entries@.len() && self.entries@[i].0@ == k by {
            if k != row_key(*row) {
                assert(old_map.contains_key(k));
                let i = choose|i: int| 0 <= i < old_entries.len() && old_entries[i].0@ == k;
                assert(self.entries@[i] == old_entries[i]);
            } else {
                assert(self.entries@[old_entries.len() as int].0@ == k);
            }
        }
        assert forall|i: int|
            0 <= i < self.entries@.len() implies #[trigger] self.map@.contains_key(
                self.entries@[i].0@,
            ) && self.map@[self.entries@[i].0@] == self.entries@[i].1 by {
            if i < old_entries.len() {
                assert(self.entries@[i] == old_entries[i]);
                assert(old_map.contains_key(old_entries[i].0@));
            }
        }
    }

    /// The table that a sequence of rows defines: each position keeps the
    /// address of the first usable row that names it.
    pub fn from_rows(rows: &Vec<LineRow>) -> (t: BreakpointTable)
        ensures
            t.wf(),
            t@ == first_wins(rows@),
    {
        let mut t = BreakpointTable::new();
        let mut i: usize = 0;
        while i < rows.len()
            invariant
                i <= rows@.len(),
                t.wf(),
                t@ == first_wins(rows@.subrange(0, i as int)),
            decreases rows@.len() - i,
        {
            t.record_row(&rows[i]);
            assert(rows@.subrange(0, i + 1).drop_last() == rows@.subrange(0, i as int));
            i = i + 1;
        }
        assert(rows@.subrange(0, rows@.len() as int) == rows@);
        t
    }
}

/// Adding rows whose positions are all present already leaves the table
/// unchanged.
proof fn lemma_first_wins_known_suffix(a: Seq<LineRow>, b: Seq<LineRow>)
    requires
        forall|j: int|
            0 <= j < b.len() && row_usable(b[j]) ==> first_wins(a).contains_key(
                #[trigger] row_key(b[j]),
            ),
    ensures
        first_wins(a + b) == first_wins(a),
    decreases b.len(),
{
    if b.len() == 0 {
        assert(a + b == a);
    } else {
        let b0 = b.drop_last();
        assert forall|j: int|
            0 <= j < b0.len() && row_usable(b0[j]) implies first_wins(a).contains_key(
                #[trigger] row_key(b0[j]),
            ) by {
            assert(b0[j] == b[j]);
        }
        lemma_first_wins_known_suffix(a, b0);
        assert((a + b).drop_last() == a + b0);
        assert((a + b).last() == b.last());
        if row_usable(b.last()) {
            assert(first_wins(a).contains_key(row_key(b[b.len() - 1])));
        }
    }
}

/// Reading the same rows a second time changes nothing: the table of
/// `rows` followed by `rows` again is the table of `rows`.
pub proof fn lemma_reload_is_idempotent(rows: Seq<LineRow>)
    ensures
        first_wins(rows + rows) == first_wins(rows),
{
    lemma_first_wins_first_row(rows);
    assert forall|j: int|
        0 <= j < rows.len() && row_usable(rows[j]) implies first_wins(rows).contains_key(
        #[trigger] row_key(rows[j]),
    ) by {}
    lemma_first_wins_known_suffix(rows, rows);
}

/// Whether the rows' addresses never decrease.
pub open spec fn addresses_nondecreasing(rows: Seq<LineRow>) -> bool {
    forall|i: int, j: int| 0 <= i <= j < rows.len() ==> rows[i].address <= rows[j].address
}

/// Where the rows' addresses never decrease, the address kept for each
/// position is the least address of all usable rows naming that position.
pub proof fn lemma_first_wins_is_minimum(rows: Seq<LineRow>)
    requires
        addresses_nondecreasing(rows),
    ensures
        forall|i: int|
            0 <= i < rows.len() && row_usable(rows[i]) ==> first_wins(rows).contains_key(
                #[trigger] row_key(rows[i]),
            ) && first_wins(rows)[row_key(rows[i])] <= rows[i].address,
{
    lemma_first_wins_first_row(rows);
    assert forall|i: int|
        0 <= i < rows.len() && row_usable(rows[i]) implies first_wins(rows).contains_key(
        #[trigger] row_key(rows[i]),
    ) && first_wins(rows)[row_key(rows[i])] <= rows[i].address by {
        let k = row_key(rows[i]);
        lemma_first_index_exists(rows, k, i);
        let f = choose|f: int| first_row_of(rows, k, f);
        assert(f <= i);
    }
}

proof fn lemma_first_index_exists(rows: Seq<LineRow>, k: (Seq<char>, u64), i: int)
    requires
        0 <= i < rows.len(),
        row_usable(rows[i]),
        row_key(rows[i]) == k,
    ensures
        exists|f: int| first_row_of(rows, k, f) && f <= i,
    decreases i,
{
    if exists|j: int| 0 <= j < i && row_usable(rows[j]) && row_key(rows[j]) == k {
        let j = choose|j: int| 0 <= j < i && row_usable(rows[j]) && row_key(rows[j]) == k;
        lemma_first_index_exists(rows, k, j);
    } else {
        assert(first_row_of(rows, k, i));
    }
}

/// `i` is the first usable row of `rows` at exactly `address`.
pub open spec fn first_row_at(rows: Seq<LineRow>, address: u64, i: int) -> bool {
    &&& 0 <= i < rows.len()
    &&& row_usable(rows[i])
    &&& rows[i].address == address
    &&& forall|j: int| 0 <= j < i ==> !(row_usable(#[trigger] rows[j]) && rows[j].address == address)
}

/// The source position of the first usable row at exactly `address`
/// (no nearest-address guess).
pub open spec fn line_at(rows: Seq<LineRow>, address: u64) -> Option<(Seq<char>, u64)> {
    if exists|i: int| first_row_at(rows, address, i) {
        let i = choose|i: int| first_row_at(rows, address, i);
        Some(row_key(rows[i]))
    } else {
        None
    }
}

/// There is at most one first row at an address.
pub proof fn lemma_first_row_at_unique(rows: Seq<LineRow>, address: u64, i: int, j: int)
    requires
        first_row_at(rows, address, i),
        first_row_at(rows, address, j),
    ensures
        i == j,
{
    if i < j {
        assert(!(row_usable(rows[i]) && rows[i].address == address));
    } else if j < i {
        assert(!(row_usable(rows[j]) && rows[j].address == address));
    }
}

/// Finds the source position of the first usable row whose address is
/// exactly `address`.
pub fn line_at_address(rows: &Vec<LineRow>, address: u64) -> (r: Result<LinePosition, DebugError>)
    ensures
        match r {
            Ok(p) => line_at(rows@, address) == Some((p.path@, p.line_number)),
            Err(e) => e == DebugError::SourceNotFound && line_at(rows@, address) is None,
        },
{
    let mut i: usize = 0;
    while i < rows.len()
        invariant
            i <= rows@.len(),
            forall|j: int| 0 <= j < i ==> !(row_usable(#[trigger] rows@[j]) && rows@[j].address == address),
        decreases rows@.len() - i,
    {
        let row = &rows[i];
        if !row.end_sequence && row.address == address {
            match (&row.path, row.line) {
                (Some(path), Some(line)) => {
                    assert(first_row_at(rows@, address, i as int));
                    proof {
                        let f = choose|f: int| first_row_at(rows@, address, f);
                        lemma_first_row_at_unique(rows@, address, i as int, f);
                    }
                    return Ok(LinePosition { path: path.clone(), line_number: line });
                },
                _ => {},
            }
        }
        i = i + 1;
    }
    Err(DebugError::SourceNotFound)
}

/// A directory and a file name joined as a path: an absolute file name
/// stands alone; otherwise a `/` separates the two unless the directory is
/// empty or already ends in one.
pub open spec fn joined_path(dir: Seq<char>, file: Seq<char>) -> Seq<char> {
    if file.len() > 0 && file[0] == '/' {
        file
    } else if dir.len() == 0 || dir.last() == '/' {
        dir + file
    } else {
        dir + seq!['/'] + file
    }
}

/// Joins a line-program directory entry and file name into one path.
pub fn join_path(dir: &str, file: &str) -> (r: String)
    ensures
        r@ == joined_path(dir@, file@),
{
    let file_len = file.unicode_len();
    if file_len > 0 && file.get_char(0) == '/' {
        return file.to_owned();
    }
    let mut r = dir.to_owned();
    let dir_len = dir.unicode_len();
    if dir_len > 0 && dir.get_char(dir_len - 1) != '/' {
        r.append("/");
        proof {
            reveal_strlit("/");
        }
    }
    r.append(file);
    r
}

/// The decimal digits of `n`, most significant first.
pub open spec fn decimal_digits(n: nat) -> Seq<char>
    decreases n,
{
    if n < 10 {
        seq![digit_char(n)]
    } else {
        decimal_digits(n / 10).push(digit_char(n % 10))
    }
}

pub open spec fn digit_char(d: nat) -> char {
    if d == 0 {
        '0'
    } else if d == 1 {
        '1'
    } else if d == 2 {
        '2'
    } else if d == 3 {
        '3'
    } else if d == 4 {
        '4'
    } else if d == 5 {
        '5'
    } else if d == 6 {
        '6'
    } else if d == 7 {
        '7'
    } else if d == 8 {
        '8'
    } else {
        '9'
    }
}

/// `path:line`.
pub open spec fn position_text(path: Seq<char>, line: int) -> Seq<char> {
    path + seq![':'] + decimal_digits(line as nat)
}

fn digit_str(d: u64) -> (r: &'static str)
    requires
        d < 10,
    ensures
        r@ == seq![digit_char(d as nat)],
{
    proof {
        reveal_strlit("0");
        reveal_strlit("1");
        reveal_strlit("2");
        reveal_strlit("3");
        reveal_strlit("4");
        reveal_strlit("5");
        reveal_strlit("6");
        reveal_strlit("7");
        reveal_strlit("8");
        reveal_strlit("9");
    }
    if d == 0 {
        "0"
    } else if d == 1 {
        "1"
    } else if d == 2 {
        "2"
    } else if d == 3 {
        "3"
    } else if d == 4 {
        "4"
    } else if d == 5 {
        "5"
    } else if d == 6 {
        "6"
    } else if d == 7 {
        "7"
    } else if d == 8 {
        "8"
    } else {
        "9"
    }
}

/// The decimal text of `n`.
pub fn decimal_text(n: u64) -> (r: String)
    ensures
        r@ == decimal_digits(n as nat),
    decreases n,
{
    if n < 10 {
        digit_str(n).to_owned()
    } else {
        let mut r = decimal_text(n / 10);
        r.append(digit_str(n % 10));
        r
    }
}

pub open spec fn is_digit(c: char) -> bool {
    '0' <= c <= '9'
}

/// The value of a string of decimal digits.
pub open spec fn digits_value(s: Seq<char>) -> int
    decreases s.len(),
{
    if s.len() == 0 {
        0
    } else {
        digits_value(s.drop_last()) * 10 + (s.last() as int - '0' as int)
    }
}

/// The digits of a line number: its text without one leading `+`.
pub open spec fn unsigned_digits(s: Seq<char>) -> Seq<char> {
    if s.len() > 0 && s[0] == '+' {
        s.drop_first()
    } else {
        s
    }
}

/// `s` is the text of a `u64`: an optional `+`, then one or more decimal
/// digits whose value fits in 64 bits.
pub open spec fn is_u64_text(s: Seq<char>) -> bool {
    let d = unsigned_digits(s);
    &&& d.len() > 0
    &&& forall|i: int| 0 <= i < d.len() ==> is_digit(#[trigger] d[i])
    &&& digits_value(d) <= u64::MAX
}

/// `i` is the index of the first `:` of `s`.
pub open spec fn first_colon(s: Seq<char>, i: int) -> bool {
    &&& 0 <= i < s.len()
    &&& s[i] == ':'
    &&& forall|j: int| 0 <= j < i ==> s[j] != ':'
}

/// Parses a line number with the syntax of `u64` text.
fn parse_line_number(s: &str) -> (r: Option<u64>)
    ensures
        match r {
            Some(n) => is_u64_text(s@) && n == digits_value(unsigned_digits(s@)),
            None => !is_u64_text(s@),
        },
{
    let len = s.unicode_len();
    let mut i: usize = 0;
    if len > 0 && s.get_char(0) == '+' {
        i = 1;
    }
    let ghost start = i as int;
    let ghost d = unsigned_digits(s@);
    assert(d == s@.subrange(start, s@.len() as int));
    if i == len {
        return None;
    }
    let mut acc: u64 = 0;
    while i < len
        invariant
            0 <= start <= 1,
            start <= i <= len,
            len == s@.len(),
            d == s@.subrange(start, s@.len() as int),
            d == unsigned_digits(s@),
            forall|j: int| start <= j < i ==> is_digit(#[trigger] s@[j]),
            acc == digits_value(s@.subrange(start, i as int)),
        decreases len - i,
    {
        let c = s.get_char(i);
        if !('0' <= c && c <= '9') {
            assert(s@[i as int] == c);
            assert(d[i - start] == s@[i as int]);
            assert(!is_digit(d[i - start]));
            return None;
        }
        let digit = (c as u32 - '0' as u32) as u64;
        assert(s@.subrange(start, i + 1).drop_last() == s@.subrange(start, i as int));
        assert(s@.subrange(start, i + 1).last() == c);
        match acc.checked_mul(10) {
            Some(m) => match m.checked_add(digit) {
                Some(v) => {
                    acc = v;
                },
                None => {
                    proof {
                        lemma_overflow_not_u64(s@, d, start, i as int);
                    }
                    return None;
                },
            },
            None => {
                proof {
                    lemma_overflow_not_u64(s@, d, start, i as int);
                }
                return None;
            },
        }
        i = i + 1;
    }
    assert(s@.subrange(start, len as int) == d);
    Some(acc)
}

proof fn lemma_overflow_not_u64(s: Seq<char>, d: Seq<char>, start: int, i: int)
    requires
        0 <= start <= i < s.len(),
        d == s.subrange(start, s.len() as int),
        d == unsigned_digits(s),
        digits_value(s.subrange(start, i + 1)) > u64::MAX,
    ensures
        !is_u64_text(s),
{
    assert(d.subrange(0, i + 1 - start) == s.subrange(start, i + 1));
    if forall|j: int| 0 <= j < d.len() ==> is_digit(#[trigger] d[j]) {
        lemma_digits_value_prefix_bound(d, i + 1 - start);
    }
}

/// The value of a digit string is at least the value of each prefix.
proof fn lemma_digits_value_prefix_bound(d: Seq<char>, n: int)
    requires
        0 <= n <= d.len(),
        forall|i: int| 0 <= i < d.len() ==> is_digit(#[trigger] d[i]),
    ensures
        digits_value(d.subrange(0, n)) <= digits_value(d),
    decreases d.len() - n,
{
    if n < d.len() {
        lemma_digits_value_prefix_bound(d, n + 1);
        assert(d.subrange(0, n + 1).drop_last() == d.subrange(0, n));
        lemma_digits_value_nonneg(d.subrange(0, n));
    } else {
        assert(d.subrange(0, n) == d);
    }
}

proof fn lemma_digits_value_nonneg(d: Seq<char>)
    requires
        forall|i: int| 0 <= i < d.len() ==> is_digit(#[trigger] d[i]),
    ensures
        digits_value(d) >= 0,
    decreases d.len(),
{
    if d.len() > 0 {
        lemma_digits_value_nonneg(d.drop_last());
    }
}

/// Parses a breakpoint position written `file:line`: the file is everything
/// before the first `:`, the line everything after it.
pub fn parse_breakpoint(s: &str) -> (r: Result<Breakpoint, DebugError>)
    ensures
        match r {
            Ok(bp) => exists|i: int|
                first_colon(s@, i) && bp.file@ == s@.subrange(0, i) && is_u64_text(
                    s@.subrange(i + 1, s@.len() as int),
                ) && bp.line_number == digits_value(
                    unsigned_digits(s@.subrange(i + 1, s@.len() as int)),
                ),
            Err(e) => {
                ||| e == DebugError::MissingColon && forall|j: int| 0 <= j < s@.len() ==> s@[j] != ':'
                ||| e == DebugError::InvalidLineNumber && exists|i: int|
                    first_colon(s@, i) && !is_u64_text(s@.subrange(i + 1, s@.len() as int))
            },
        },
{
    let len = s.unicode_len();
    let mut i: usize = 0;
    while i < len
        invariant
            i <= len,
            len == s@.len(),
            forall|j: int| 0 <= j < i ==> s@[j] != ':',
        decreases len - i,
    {
        if s.get_char(i) == ':' {
            assert(first_colon(s@, i as int));
            let file = s.substring_char(0, i);
            let rest = s.substring_char(i + 1, len);
            return match parse_line_number(rest) {
                Some(n) => Ok(Breakpoint { file: file.to_owned(), line_number: n }),
                None => Err(DebugError::InvalidLineNumber),
            };
        }
        i = i + 1;
    }
    Err(DebugError::MissingColon)
}

} // verus!
