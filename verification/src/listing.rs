//! The directory listing: one row of four texts per entry (name, kind,
//! size, last modification), sorted by a column and laid out as a table.
use vstd::prelude::*;
use crate::datetime::{format_utc, utc_text};
use crate::text::{
    byte_len, pad_right, push_padded, push_repeat, repeat_char,
    compare_text, text_le, TextOrder, lemma_text_le_reflexive, lemma_text_le_total,
    lemma_text_le_transitive, lemma_text_le_antisymmetric,
};

verus! {

/// One entry of the listing: name, kind, size and last modification.
pub type Row = (String, String, String, String);

/// Which way a sort goes.
#[derive(PartialEq, Eq, Structural, Clone, Copy, Debug)]
pub enum SortOrder {
    Ascending,
    Descending,
}

/// A column of the listing.
#[derive(PartialEq, Eq, Structural, Clone, Copy, Debug)]
pub enum Column {
    Name,
    Kind,
    Size,
    LastModified,
}

/// The text a row holds in a column.
pub open spec fn column_text(r: Row, col: Column) -> Seq<char> {
    match col {
        Column::Name => r.0@,
        Column::Kind => r.1@,
        Column::Size => r.2@,
        Column::LastModified => r.3@,
    }
}

/// Whether text `a` may stand before text `b` in the given order.
pub open spec fn precedes(a: Seq<char>, b: Seq<char>, order: SortOrder) -> bool {
    match order {
        SortOrder::Ascending => text_le(a, b),
        SortOrder::Descending => text_le(b, a),
    }
}

/// Rows ordered by a column.
pub open spec fn sorted_by_column(rows: Seq<Row>, col: Column, order: SortOrder) -> bool {
    forall|i: int, j: int|
        0 <= i < j < rows.len() ==> precedes(
            #[trigger] column_text(rows[i], col),
            #[trigger] column_text(rows[j], col),
            order,
        )
}

/// Whether a row holds `k` in a column.
pub open spec fn has_key(col: Column, k: Seq<char>) -> spec_fn(Row) -> bool {
    |r: Row| column_text(r, col) == k
}

/// The rows that hold `k` in a column, in their order.
pub open spec fn rows_with_key(rows: Seq<Row>, col: Column, k: Seq<char>) -> Seq<Row> {
    rows.filter(has_key(col, k))
}

/// `new` is `old` sorted stably by a column: ordered, a permutation, and
/// rows that hold the same text in the column keep their relative order.
pub open spec fn stable_sort_of(new: Seq<Row>, old: Seq<Row>, col: Column, order: SortOrder) -> bool {
    &&& sorted_by_column(new, col, order)
    &&& new.to_multiset() == old.to_multiset()
    &&& forall|k: Seq<char>| #[trigger] rows_with_key(new, col, k) == rows_with_key(old, col, k)
}

proof fn lemma_precedes_total(a: Seq<char>, b: Seq<char>, order: SortOrder)
    ensures
        precedes(a, b, order) || precedes(b, a, order),
        precedes(a, a, order),
{
    lemma_text_le_total(a, b);
    lemma_text_le_reflexive(a);
}

proof fn lemma_precedes_transitive(a: Seq<char>, b: Seq<char>, c: Seq<char>, order: SortOrder)
    requires
        precedes(a, b, order),
        precedes(b, c, order),
    ensures
        precedes(a, c, order),
{
    match order {
        SortOrder::Ascending => lemma_text_le_transitive(a, b, c),
        SortOrder::Descending => lemma_text_le_transitive(c, b, a),
    }
}

proof fn lemma_filter_none<A>(s: Seq<A>, pred: spec_fn(A) -> bool)
    requires
        forall|i: int| 0 <= i < s.len() ==> !pred(s[i]),
    ensures
        s.filter(pred) == Seq::<A>::empty(),
    decreases s.len(),
{
    reveal(Seq::filter);
    if s.len() > 0 {
        lemma_filter_none(s.drop_last(), pred);
    }
}

proof fn lemma_filter_single<A>(x: A, pred: spec_fn(A) -> bool)
    ensures
        seq![x].filter(pred) == (if pred(x) { seq![x] } else { Seq::<A>::empty() }),
{
    reveal_with_fuel(Seq::filter, 2);
    assert(seq![x].drop_last() =~= Seq::<A>::empty());
    if pred(x) {
        assert(seq![x].filter(pred) =~= seq![x]);
    }
}

/// Inserting `x` at `pos`, before the first row that `x` may precede,
/// keeps the rows sorted and keeps `x` after every row of its own key.
proof fn lemma_insert_sorted(sorted: Seq<Row>, pos: int, x: Row, col: Column, order: SortOrder)
    requires
        sorted_by_column(sorted, col, order),
        0 <= pos <= sorted.len(),
        forall|q: int| 0 <= q < pos ==> !precedes(column_text(x, col), #[trigger] column_text(sorted[q], col), order),
        pos < sorted.len() ==> precedes(column_text(x, col), column_text(sorted[pos], col), order),
    ensures
        sorted_by_column(sorted.insert(pos, x), col, order),
        forall|k: Seq<char>|
            #[trigger] rows_with_key(sorted.insert(pos, x), col, k) == rows_with_key(seq![x], col, k)
                + rows_with_key(sorted, col, k),
{
    let kx = column_text(x, col);
    let new = sorted.insert(pos, x);
    assert forall|q: int| 0 <= q < pos implies precedes(#[trigger] column_text(sorted[q], col), kx, order)
        && column_text(sorted[q], col) != kx by {
        lemma_precedes_total(kx, column_text(sorted[q], col), order);
    }
    assert forall|q: int| pos <= q < sorted.len() implies precedes(kx, #[trigger] column_text(sorted[q], col), order) by {
        if q > pos {
            lemma_precedes_transitive(kx, column_text(sorted[pos], col), column_text(sorted[q], col), order);
        }
    }
    assert forall|i: int, j: int| 0 <= i < j < new.len() implies precedes(
        #[trigger] column_text(new[i], col),
        #[trigger] column_text(new[j], col),
        order,
    ) by {
        if j < pos {
            assert(new[i] == sorted[i] && new[j] == sorted[j]);
        } else if j == pos {
            assert(new[i] == sorted[i] && new[j] == x);
        } else if i < pos {
            assert(new[i] == sorted[i] && new[j] == sorted[j - 1]);
            lemma_precedes_transitive(column_text(sorted[i], col), kx, column_text(sorted[j - 1], col), order);
        } else if i == pos {
            assert(new[i] == x && new[j] == sorted[j - 1]);
        } else {
            assert(new[i] == sorted[i - 1] && new[j] == sorted[j - 1]);
        }
    }
    let front = sorted.take(pos);
    let back = sorted.skip(pos);
    assert(new =~= front + seq![x] + back);
    assert(sorted =~= front + back);
    assert forall|k: Seq<char>| #[trigger] rows_with_key(new, col, k) == rows_with_key(seq![x], col, k)
        + rows_with_key(sorted, col, k) by {
        let p = has_key(col, k);
        Seq::filter_distributes_over_add(front + seq![x], back, p);
        Seq::filter_distributes_over_add(front, seq![x], p);
        Seq::filter_distributes_over_add(front, back, p);
        lemma_filter_single(x, p);
        if k == kx {
            assert forall|q: int| 0 <= q < front.len() implies !p(front[q]) by {
                assert(front[q] == sorted[q]);
            }
            lemma_filter_none(front, p);
            assert(front.filter(p) + seq![x] + back.filter(p) =~= seq![x] + (front.filter(p) + back.filter(p)));
        } else {
            assert(seq![x].filter(p) == Seq::<Row>::empty());
            assert(front.filter(p) + seq![x].filter(p) + back.filter(p) =~= seq![x].filter(p) + (front.filter(p) + back.filter(p)));
        }
    }
}

proof fn lemma_filter_push<A>(s: Seq<A>, x: A, pred: spec_fn(A) -> bool)
    ensures
        s.push(x).filter(pred) == (if pred(x) { s.filter(pred).push(x) } else { s.filter(pred) }),
{
    reveal_with_fuel(Seq::filter, 1);
    assert(s.push(x).drop_last() =~= s);
}

proof fn lemma_filter_has<A>(s: Seq<A>, pred: spec_fn(A) -> bool, i: int)
    requires
        0 <= i < s.len(),
        pred(s[i]),
    ensures
        s.filter(pred).len() > 0,
{
    s.lemma_filter_contains(pred, i);
}

pub(crate) proof fn lemma_filter_member<A>(s: Seq<A>, pred: spec_fn(A) -> bool, i: int)
    requires
        0 <= i < s.filter(pred).len(),
    ensures
        exists|j: int| 0 <= j < s.len() && s[j] == s.filter(pred)[i],
        pred(s.filter(pred)[i]),
    decreases s.len(),
{
    reveal_with_fuel(Seq::filter, 1);
    s.lemma_filter_pred(pred, i);
    if s.len() > 0 {
        let d = s.drop_last();
        if pred(s.last()) && i == s.filter(pred).len() - 1 {
            assert(s[s.len() - 1] == s.filter(pred)[i]);
        } else {
            lemma_filter_member(d, pred, i);
            let j = choose|j: int| 0 <= j < d.len() && d[j] == d.filter(pred)[i];
            assert(s[j] == s.filter(pred)[i]);
        }
    }
}

/// Two lists of rows ordered by a column, with the same rows and the same
/// rows of each key in the same order, are the same list.
pub proof fn lemma_ordered_with_same_keys_equal(new: Seq<Row>, old: Seq<Row>, col: Column, order: SortOrder)
    requires
        sorted_by_column(new, col, order),
        sorted_by_column(old, col, order),
        new.to_multiset() == old.to_multiset(),
        forall|k: Seq<char>| #[trigger] rows_with_key(new, col, k) == rows_with_key(old, col, k),
    ensures
        new == old,
    decreases old.len(),
{
    vstd::seq_lib::to_multiset_len(new);
    vstd::seq_lib::to_multiset_len(old);
    assert(new.len() == old.len());
    if old.len() > 0 {
        let n = new.last();
        let o = old.last();
        let kn = column_text(n, col);
        let ko = column_text(o, col);
        // The last row of each holds a key that the other has too, so the
        // two keys precede each other and are equal.
        assert(rows_with_key(new, col, kn) == rows_with_key(old, col, kn));
        assert(rows_with_key(new, col, ko) == rows_with_key(old, col, ko));
        lemma_filter_has(new, has_key(col, kn), new.len() - 1);
        lemma_filter_has(old, has_key(col, ko), old.len() - 1);
        lemma_filter_member(old, has_key(col, kn), 0);
        lemma_filter_member(new, has_key(col, ko), 0);
        let jo = choose|j: int| 0 <= j < old.len() && old[j] == old.filter(has_key(col, kn))[0];
        let jn = choose|j: int| 0 <= j < new.len() && new[j] == new.filter(has_key(col, ko))[0];
        if jo < old.len() - 1 {
            assert(precedes(column_text(old[jo], col), column_text(old[old.len() - 1], col), order));
        } else {
            lemma_precedes_total(kn, kn, order);
        }
        if jn < new.len() - 1 {
            assert(precedes(column_text(new[jn], col), column_text(new[new.len() - 1], col), order));
        } else {
            lemma_precedes_total(ko, ko, order);
        }
        assert(kn == ko) by {
            match order {
                SortOrder::Ascending => lemma_text_le_antisymmetric(kn, ko),
                SortOrder::Descending => lemma_text_le_antisymmetric(kn, ko),
            }
        }
        // The last row of that key is the last row of each list.
        let nd = new.drop_last();
        let od = old.drop_last();
        assert(new =~= nd.push(n));
        assert(old =~= od.push(o));
        lemma_filter_push(nd, n, has_key(col, kn));
        lemma_filter_push(od, o, has_key(col, kn));
        assert(n == rows_with_key(new, col, kn).last());
        assert(o == rows_with_key(old, col, kn).last());
        assert(n == o);
        // The rest is the same problem, one row shorter.
        assert forall|k: Seq<char>| #[trigger] rows_with_key(nd, col, k) == rows_with_key(od, col, k) by {
            lemma_filter_push(nd, n, has_key(col, k));
            lemma_filter_push(od, o, has_key(col, k));
            assert(rows_with_key(new, col, k) == rows_with_key(old, col, k));
            if k == kn {
                assert(rows_with_key(nd, col, k) =~= rows_with_key(new, col, k).drop_last());
                assert(rows_with_key(od, col, k) =~= rows_with_key(old, col, k).drop_last());
            }
        }
        assert(nd.to_multiset() == od.to_multiset()) by {
            vstd::seq_lib::to_multiset_build(nd, n);
            vstd::seq_lib::to_multiset_build(od, o);
            assert(nd.to_multiset() =~= new.to_multiset().remove(n));
            assert(od.to_multiset() =~= old.to_multiset().remove(o));
        }
        assert(sorted_by_column(nd, col, order)) by {
            assert forall|i: int, j: int| 0 <= i < j < nd.len() implies precedes(
                #[trigger] column_text(nd[i], col),
                #[trigger] column_text(nd[j], col),
                order,
            ) by {
                assert(nd[i] == new[i] && nd[j] == new[j]);
            }
        }
        assert(sorted_by_column(od, col, order)) by {
            assert forall|i: int, j: int| 0 <= i < j < od.len() implies precedes(
                #[trigger] column_text(od[i], col),
                #[trigger] column_text(od[j], col),
                order,
            ) by {
                assert(od[i] == old[i] && od[j] == old[j]);
            }
        }
        lemma_ordered_with_same_keys_equal(nd, od, col, order);
    } else {
        assert(new =~= old);
    }
}

/// A stable sort has one outcome: any two stable sorts of the same rows
/// by the same column and order agree.
pub proof fn lemma_stable_sort_is_unique(a: Seq<Row>, b: Seq<Row>, old: Seq<Row>, col: Column, order: SortOrder)
    requires
        stable_sort_of(a, old, col, order),
        stable_sort_of(b, old, col, order),
    ensures
        a == b,
{
    assert forall|k: Seq<char>| #[trigger] rows_with_key(a, col, k) == rows_with_key(b, col, k) by {
        assert(rows_with_key(a, col, k) == rows_with_key(old, col, k));
        assert(rows_with_key(b, col, k) == rows_with_key(old, col, k));
    }
    lemma_ordered_with_same_keys_equal(a, b, col, order);
}

/// Sorting is idempotent: sorting rows that are already in order by a
/// column, stably and in the same order, gives them back unchanged.
pub proof fn lemma_sorting_sorted_rows_keeps_them(new: Seq<Row>, old: Seq<Row>, col: Column, order: SortOrder)
    requires
        sorted_by_column(old, col, order),
        stable_sort_of(new, old, col, order),
    ensures
        new == old,
{
    lemma_ordered_with_same_keys_equal(new, old, col, order);
}

/// Whether text `a` may stand before text `b` in the given order.
fn precedes_text(a: &str, b: &str, order: SortOrder) -> (r: bool)
    ensures
        r == precedes(a@, b@, order),
{
    let c = compare_text(a, b);
    match order {
        SortOrder::Ascending => c != TextOrder::Greater,
        SortOrder::Descending => {
            proof {
                if c == TextOrder::Greater {
                    lemma_text_le_total(a@, b@);
                }
                if c == TextOrder::Equal {
                    lemma_text_le_reflexive(a@);
                }
                if c == TextOrder::Less && text_le(b@, a@) {
                    lemma_text_le_antisymmetric(a@, b@);
                }
            }
            c != TextOrder::Less
        },
    }
}

/// The text a row holds in a column.
fn column_of(r: &Row, col: Column) -> (s: &str)
    ensures
        s@ == column_text(*r, col),
{
    match col {
        Column::Name => r.0.as_str(),
        Column::Kind => r.1.as_str(),
        Column::Size => r.2.as_str(),
        Column::LastModified => r.3.as_str(),
    }
}

/// Sorts the rows stably by a column (insertion sort).
pub fn sort_rows(list: &mut Vec<Row>, col: Column, order: SortOrder)
    ensures
        stable_sort_of(final(list)@, old(list)@, col, order),
{
    let mut rest: Vec<Row> = Vec::new();
    std::mem::swap(&mut rest, list);
    let ghost orig = rest@;
    let mut sorted: Vec<Row> = Vec::new();
    assert(orig.take(orig.len() as int) =~= orig);
    assert(orig.skip(orig.len() as int) =~= sorted@);
    while rest.len() > 0
        invariant
            rest.len() <= orig.len(),
            rest@ == orig.take(rest.len() as int),
            sorted_by_column(sorted@, col, order),
            sorted@.to_multiset() == orig.skip(rest.len() as int).to_multiset(),
            forall|k: Seq<char>| #[trigger] rows_with_key(sorted@, col, k) == rows_with_key(
                orig.skip(rest.len() as int), col, k),
        decreases rest.len(),
    {
        let ghost m = rest.len() as int;
        let x = rest.pop().unwrap();
        assert(x == orig[m - 1]);
        assert(rest@ =~= orig.take(m - 1));
        let mut pos: usize = 0;
        while pos < sorted.len() && !precedes_text(column_of(&x, col), column_of(&sorted[pos], col), order)
            invariant
                pos <= sorted@.len(),
                forall|q: int| 0 <= q < pos ==> !precedes(column_text(x, col), #[trigger] column_text(sorted@[q], col), order),
            decreases sorted@.len() - pos,
        {
            pos = pos + 1;
        }
        proof {
            lemma_insert_sorted(sorted@, pos as int, x, col, order);
            assert(orig.skip(m - 1) =~= seq![x] + orig.skip(m));
            assert forall|k: Seq<char>| #[trigger] rows_with_key(orig.skip(m - 1), col, k) == rows_with_key(seq![x], col, k)
                + rows_with_key(orig.skip(m), col, k) by {
                Seq::filter_distributes_over_add(seq![x], orig.skip(m), has_key(col, k));
            }
            vstd::seq_lib::to_multiset_insert(sorted@, pos as int, x);
            assert(orig.skip(m - 1).to_multiset() == orig.skip(m).to_multiset().insert(x)) by {
                vstd::seq_lib::lemma_seq_union_to_multiset_commutative(seq![x], orig.skip(m));
                vstd::seq_lib::to_multiset_build(orig.skip(m), x);
                assert(orig.skip(m) + seq![x] =~= orig.skip(m).push(x));
            }
        }
        sorted.insert(pos, x);
    }
    assert(orig.skip(0) =~= orig);
    *list = sorted;
}


/// Sorts the listing by name, ascending (stable).
pub fn sort_by_name(list: &mut Vec<Row>)
    ensures
        stable_sort_of(final(list)@, old(list)@, Column::Name, SortOrder::Ascending),
{
    sort_rows(list, Column::Name, SortOrder::Ascending);
}

/// Sorts the listing by the size column, ascending (stable). The column
/// holds the size as displayed, so the order is that of those texts.
pub fn sort_by_size(list: &mut Vec<Row>)
    ensures
        stable_sort_of(final(list)@, old(list)@, Column::Size, SortOrder::Ascending),
{
    sort_rows(list, Column::Size, SortOrder::Ascending);
}

/// Sorts the listing by the time of last modification, in either order
/// (stable).
pub fn sort_by_last_modified(list: &mut Vec<Row>, order: SortOrder)
    ensures
        stable_sort_of(final(list)@, old(list)@, Column::LastModified, order),
{
    sort_rows(list, Column::LastModified, order);
}

/// Values that the listing shows as a text.
pub trait PrintFormat: Sized {
    /// The text shown for the value.
    spec fn shown(&self) -> Seq<char>;

    /// The text shown for the value.
    fn display(self) -> (s: String)
        ensures
            s@ == self.shown(),
    ;
}

/// The text shown for a value.
pub fn fmt_to_print<T: PrintFormat>(item: T) -> (s: String)
    ensures
        s@ == item.shown(),
{
    item.display()
}

/// A text is shown as it is: entry names (already in UTF-8) and sizes
/// (already written out) take this form.
impl PrintFormat for String {
    open spec fn shown(&self) -> Seq<char> {
        self@
    }

    fn display(self) -> (s: String) {
        self
    }
}

/// The kind of a directory entry.
#[derive(PartialEq, Eq, Structural, Clone, Copy, Debug)]
pub enum FileKind {
    Dir,
    File,
    Symlink,
}

/// The label of an entry kind.
pub open spec fn kind_label(k: FileKind) -> Seq<char> {
    match k {
        FileKind::Dir => "dir"@,
        FileKind::File => "file"@,
        FileKind::Symlink => "symlink"@,
    }
}

impl FileKind {
    /// The kind of an entry from its file-type tests, checked in the order
    /// directory, file, symbolic link; `None` when none of them holds.
    pub fn classify(is_dir: bool, is_file: bool, is_symlink: bool) -> (r: Option<FileKind>)
        ensures
            r == (if is_dir {
                Some(FileKind::Dir)
            } else if is_file {
                Some(FileKind::File)
            } else if is_symlink {
                Some(FileKind::Symlink)
            } else {
                None
            }),
    {
        if is_dir {
            Some(FileKind::Dir)
        } else if is_file {
            Some(FileKind::File)
        } else if is_symlink {
            Some(FileKind::Symlink)
        } else {
            None
        }
    }
}

impl PrintFormat for FileKind {
    open spec fn shown(&self) -> Seq<char> {
        kind_label(*self)
    }

    fn display(self) -> (s: String) {
        match self {
            FileKind::Dir => String::from_str("dir"),
            FileKind::File => String::from_str("file"),
            FileKind::Symlink => String::from_str("symlink"),
        }
    }
}

/// The format of the last-modification column.
pub open spec fn listing_time_format() -> Seq<char> {
    "%Y-%m-%d %H:%M:%S"@
}

/// An instant (seconds and nanoseconds since the Unix epoch) that `chrono`
/// can show in UTC.
pub struct Timestamp {
    secs: i64,
    nanos: u32,
}

impl Timestamp {
    #[verifier::type_invariant]
    spec fn showable(self) -> bool {
        utc_text(self.secs, self.nanos, listing_time_format()) is Some
    }

    /// Seconds since the Unix epoch.
    pub closed spec fn seconds(self) -> i64 {
        self.secs
    }

    /// Nanoseconds within the second.
    pub closed spec fn nanoseconds(self) -> u32 {
        self.nanos
    }

    /// The instant of the given seconds and nanoseconds since the epoch, if
    /// `chrono` can show it.
    pub fn new(secs: i64, nanos: u32) -> (r: Option<Timestamp>)
        ensures
            r is Some <==> utc_text(secs, nanos, listing_time_format()) is Some,
            r matches Some(t) ==> t.seconds() == secs && t.nanoseconds() == nanos,
    {
        match format_utc(secs, nanos, "%Y-%m-%d %H:%M:%S") {
            Some(_) => Some(Timestamp { secs, nanos }),
            None => None,
        }
    }
}

impl PrintFormat for Timestamp {
    /// The instant in UTC as `YYYY-MM-DD hh:mm:ss`.
    open spec fn shown(&self) -> Seq<char> {
        utc_text(self.seconds(), self.nanoseconds(), listing_time_format()).unwrap()
    }

    fn display(self) -> (s: String) {
        proof {
            use_type_invariant(&self);
        }
        match format_utc(self.secs, self.nanos, "%Y-%m-%d %H:%M:%S") {
            Some(t) => t,
            None => String::new(),
        }
    }
}

/// Adds an entry to the listing: its name, kind, size text and time of
/// last modification, each as shown.
pub fn add_to_list(list: &mut Vec<Row>, file_stats: (String, FileKind, String, Timestamp))
    ensures
        final(list)@.len() == old(list)@.len() + 1,
        final(list)@.take(old(list)@.len() as int) == old(list)@,
        final(list)@.last().0@ == file_stats.0.shown(),
        final(list)@.last().1@ == file_stats.1.shown(),
        final(list)@.last().2@ == file_stats.2.shown(),
        final(list)@.last().3@ == file_stats.3.shown(),
{
    let (name, kind, size, modified) = file_stats;
    let row = (fmt_to_print(name), fmt_to_print(kind), fmt_to_print(size), fmt_to_print(modified));
    list.push(row);
    assert(list@.take(old(list)@.len() as int) =~= old(list)@);
}

/// The widest name of the rows, in bytes (0 for none).
pub open spec fn widest_name(rows: Seq<Row>) -> usize
    decreases rows.len(),
{
    if rows.len() == 0 {
        0
    } else {
        let w = widest_name(rows.drop_last());
        let b = byte_len(rows.last().0@);
        if w >= b { w } else { b }
    }
}

/// The width of the name column: the widest name in bytes, or 20 when the
/// listing is empty.
pub open spec fn name_column_width(rows: Seq<Row>) -> usize {
    if rows.len() == 0 {
        20
    } else {
        widest_name(rows)
    }
}

proof fn lemma_widest_name(rows: Seq<Row>)
    ensures
        forall|i: int| 0 <= i < rows.len() ==> byte_len(#[trigger] rows[i].0@) <= widest_name(rows),
        rows.len() > 0 ==> exists|i: int| 0 <= i < rows.len() && byte_len(#[trigger] rows[i].0@) == widest_name(rows),
    decreases rows.len(),
{
    if rows.len() > 0 {
        lemma_widest_name(rows.drop_last());
        assert forall|i: int| 0 <= i < rows.len() implies byte_len(#[trigger] rows[i].0@) <= widest_name(rows) by {
            if i < rows.len() - 1 {
                assert(rows[i] == rows.drop_last()[i]);
            }
        }
        if rows.len() > 1 && widest_name(rows.drop_last()) >= byte_len(rows.last().0@) {
            let i = choose|i: int| 0 <= i < rows.drop_last().len() && byte_len(#[trigger] rows.drop_last()[i].0@) == widest_name(rows.drop_last());
            assert(rows[i] == rows.drop_last()[i]);
        } else {
            assert(byte_len(rows[rows.len() - 1].0@) == widest_name(rows));
        }
    }
}

/// The width of the name column: the length in bytes of the longest name,
/// or 20 when there are no entries.
pub fn calculate_name_width(list: &Vec<Row>) -> (w: usize)
    ensures
        w == name_column_width(list@),
        forall|i: int| 0 <= i < list@.len() ==> byte_len(#[trigger] list@[i].0@) <= w,
        list@.len() > 0 ==> exists|i: int| 0 <= i < list@.len() && byte_len(#[trigger] list@[i].0@) == w,
{
    proof {
        lemma_widest_name(list@);
    }
    if list.len() == 0 {
        return 20;
    }
    let mut w: usize = 0;
    let mut i: usize = 0;
    while i < list.len()
        invariant
            i <= list@.len(),
            w == widest_name(list@.take(i as int)),
        decreases list@.len() - i,
    {
        assert(list@.take(i + 1).drop_last() =~= list@.take(i as int));
        let b = list[i].0.as_str().len();
        if b > w {
            w = b;
        }
        i = i + 1;
    }
    assert(list@.take(list@.len() as int) =~= list@);
    w
}

/// The rule line of the table: 42 dashes more than the name column width.
pub open spec fn bar_text(name_width: nat) -> Seq<char> {
    repeat_char('-', 46) + repeat_char('-', (name_width - 4) as nat)
}

/// The heading line of the table.
pub open spec fn header_text(name_width: nat) -> Seq<char> {
    "Name"@ + repeat_char(' ', (name_width - 4) as nat) + " Type       Size       Last modified"@
}

/// The line of one entry: the name, kind and size left-aligned in fields of
/// the name width, 10 and 10 characters, then the time.
pub open spec fn row_text(r: Row, name_width: nat) -> Seq<char> {
    pad_right(r.0@, name_width) + " "@ + pad_right(r.1@, 10) + " "@ + pad_right(r.2@, 10) + " "@ + r.3@
}

/// The rule line of the table.
pub fn bar_line(name_width: usize) -> (s: String)
    requires
        name_width >= 4,
    ensures
        s@ == bar_text(name_width as nat),
{
    let mut s = String::new();
    push_repeat(&mut s, '-', 46);
    push_repeat(&mut s, '-', name_width - 4);
    assert(s@ =~= bar_text(name_width as nat));
    s
}

/// The heading line of the table.
pub fn header_line(name_width: usize) -> (s: String)
    requires
        name_width >= 4,
    ensures
        s@ == header_text(name_width as nat),
{
    let mut s = String::from_str("Name");
    push_repeat(&mut s, ' ', name_width - 4);
    s.append(" Type       Size       Last modified");
    s
}

/// The line of one entry.
pub fn row_line(r: &Row, name_width: usize) -> (s: String)
    ensures
        s@ == row_text(*r, name_width as nat),
{
    let mut s = String::new();
    push_padded(&mut s, r.0.as_str(), name_width);
    s.append(" ");
    push_padded(&mut s, r.1.as_str(), 10);
    s.append(" ");
    push_padded(&mut s, r.2.as_str(), 10);
    s.append(" ");
    s.append(r.3.as_str());
    assert(s@ =~= row_text(*r, name_width as nat));
    s
}

/// The heading of the table: a rule, the heading line and a rule.
pub fn table_header_lines(name_width: usize) -> (lines: Vec<String>)
    requires
        name_width >= 4,
    ensures
        lines@.len() == 3,
        lines@[0]@ == bar_text(name_width as nat),
        lines@[1]@ == header_text(name_width as nat),
        lines@[2]@ == bar_text(name_width as nat),
{
    let mut lines: Vec<String> = Vec::new();
    lines.push(bar_line(name_width));
    lines.push(header_line(name_width));
    lines.push(bar_line(name_width));
    lines
}

/// The whole table: the heading, one line per entry in listing order, and
/// a closing rule.
pub fn table_lines(list: &Vec<Row>, name_width: usize) -> (lines: Vec<String>)
    requires
        name_width >= 4,
    ensures
        lines@.len() == list@.len() + 4,
        lines@[0]@ == bar_text(name_width as nat),
        lines@[1]@ == header_text(name_width as nat),
        lines@[2]@ == bar_text(name_width as nat),
        forall|i: int| 0 <= i < list@.len() ==> #[trigger] lines@[i + 3]@ == row_text(list@[i], name_width as nat),
        lines@[list@.len() + 3int]@ == bar_text(name_width as nat),
{
    let mut lines = table_header_lines(name_width);
    let mut i: usize = 0;
    while i < list.len()
        invariant
            i <= list@.len(),
            lines@.len() == i + 3,
            lines@[0]@ == bar_text(name_width as nat),
            lines@[1]@ == header_text(name_width as nat),
            lines@[2]@ == bar_text(name_width as nat),
            forall|j: int| 0 <= j < i ==> #[trigger] lines@[j + 3]@ == row_text(list@[j], name_width as nat),
        decreases list@.len() - i,
    {
        lines.push(row_line(&list[i], name_width));
        i = i + 1;
    }
    lines.push(bar_line(name_width));
    lines
}

} // verus!
