//! Classification of IANA-style port-registry records.
//!
//! The registry is a CSV table of service records.  The text is split
//! into records by the `csv` crate behind a trusted wrapper; everything
//! after that split — locating the columns by their headings, skipping
//! records with an empty service name or port number, setting ranged
//! port numbers aside, and keying the TCP and UDP tables by port-number
//! string — is verified here.

use vstd::prelude::*;
use crate::address::is_port_str;
use crate::scan::{
    ascii_lower, bytes_eq, copy_bytes, has_byte, has_byte_x,
};

verus! {

/// Why loading the registry failed.
#[derive(Clone, Copy, PartialEq, Eq, Structural, Debug)]
pub enum RegistryError {
    /// The CSV text itself was malformed.
    Csv,
    /// A record column named in the format is missing from the header.
    MissingColumn,
    /// A record is shorter than the columns the format names.
    ShortRow,
}

/// The error type of the `csv` crate, opaque to this crate.
#[verifier::external_type_specification]
#[verifier::external_body]
pub struct ExCsvError(csv::Error);

/// The records that the `csv` crate reads out of `bytes`, header row
/// included: `None` when it refuses the text.  The split is a function
/// of the text alone.
pub uninterp spec fn csv_records_of(bytes: Seq<u8>) -> Option<Seq<Seq<Seq<u8>>>>;

/// Relies on `csv::Reader` (crate `csv`): reads CSV text into records
/// of fields, one record per row with the header row included, and
/// reports an error on malformed text, as when record lengths differ.
#[verifier::external_body]
fn csv_split(data: &[u8]) -> (r: Result<Vec<Vec<Vec<u8>>>, csv::Error>)
    ensures
        match r {
            Ok(rows) => csv_records_of(data@) == Some(rows.deep_view()),
            Err(_) => csv_records_of(data@) is None,
        },
{
    let mut rdr = csv::ReaderBuilder::new().has_headers(false).from_reader(data);
    let mut rows: Vec<Vec<Vec<u8>>> = Vec::new();
    for rec in rdr.records() {
        match rec {
            Ok(sr) => rows.push(sr.iter().map(|f| f.as_bytes().to_vec()).collect()),
            Err(e) => return Err(e),
        }
    }
    Ok(rows)
}

/// The column heading of registry column `j`, as bytes.
pub open spec fn col_name(j: int) -> Seq<u8> {
    if j == 0 {
        seq![83u8, 101u8, 114u8, 118u8, 105u8, 99u8, 101u8, 32u8, 78u8, 97u8, 109u8, 101u8]
    } else
    if j == 1 {
        seq![80u8, 111u8, 114u8, 116u8, 32u8, 78u8, 117u8, 109u8, 98u8, 101u8, 114u8]
    } else
    if j == 2 {
        seq![84u8, 114u8, 97u8, 110u8, 115u8, 112u8, 111u8, 114u8, 116u8, 32u8, 80u8, 114u8, 111u8, 116u8, 111u8, 99u8, 111u8, 108u8]
    } else
    if j == 3 {
        seq![68u8, 101u8, 115u8, 99u8, 114u8, 105u8, 112u8, 116u8, 105u8, 111u8, 110u8]
    } else
    if j == 4 {
        seq![65u8, 115u8, 115u8, 105u8, 103u8, 110u8, 101u8, 101u8]
    } else
    if j == 5 {
        seq![67u8, 111u8, 110u8, 116u8, 97u8, 99u8, 116u8]
    } else
    if j == 6 {
        seq![82u8, 101u8, 103u8, 105u8, 115u8, 116u8, 114u8, 97u8, 116u8, 105u8, 111u8, 110u8, 32u8, 68u8, 97u8, 116u8, 101u8]
    } else
    if j == 7 {
        seq![77u8, 111u8, 100u8, 105u8, 102u8, 105u8, 99u8, 97u8, 116u8, 105u8, 111u8, 110u8, 32u8, 68u8, 97u8, 116u8, 101u8]
    } else
    if j == 8 {
        seq![82u8, 101u8, 102u8, 101u8, 114u8, 101u8, 110u8, 99u8, 101u8]
    } else
    if j == 9 {
        seq![83u8, 101u8, 114u8, 118u8, 105u8, 99u8, 101u8, 32u8, 67u8, 111u8, 100u8, 101u8]
    } else
    if j == 10 {
        seq![85u8, 110u8, 97u8, 117u8, 116u8, 104u8, 111u8, 114u8, 105u8, 122u8, 101u8, 100u8, 32u8, 85u8, 115u8, 101u8, 32u8, 82u8, 101u8, 112u8, 111u8, 114u8, 116u8, 101u8, 100u8]
    } else
    if j == 11 {
        seq![65u8, 115u8, 115u8, 105u8, 103u8, 110u8, 109u8, 101u8, 110u8, 116u8, 32u8, 78u8, 111u8, 116u8, 101u8, 115u8]
    } else {
        Seq::<u8>::empty()
    }
}

/// Exec mirror of `col_name`.
pub fn col_name_x(j: usize) -> (v: Vec<u8>)
    requires
        j < 12,
    ensures
        v@ == col_name(j as int),
{
    let mut v: Vec<u8> = Vec::new();
    if j == 0 {
        v.push(83);
        v.push(101);
        v.push(114);
        v.push(118);
        v.push(105);
        v.push(99);
        v.push(101);
        v.push(32);
        v.push(78);
        v.push(97);
        v.push(109);
        v.push(101);
    } else
    if j == 1 {
        v.push(80);
        v.push(111);
        v.push(114);
        v.push(116);
        v.push(32);
        v.push(78);
        v.push(117);
        v.push(109);
        v.push(98);
        v.push(101);
        v.push(114);
    } else
    if j == 2 {
        v.push(84);
        v.push(114);
        v.push(97);
        v.push(110);
        v.push(115);
        v.push(112);
        v.push(111);
        v.push(114);
        v.push(116);
        v.push(32);
        v.push(80);
        v.push(114);
        v.push(111);
        v.push(116);
        v.push(111);
        v.push(99);
        v.push(111);
        v.push(108);
    } else
    if j == 3 {
        v.push(68);
        v.push(101);
        v.push(115);
        v.push(99);
        v.push(114);
        v.push(105);
        v.push(112);
        v.push(116);
        v.push(105);
        v.push(111);
        v.push(110);
    } else
    if j == 4 {
        v.push(65);
        v.push(115);
        v.push(115);
        v.push(105);
        v.push(103);
        v.push(110);
        v.push(101);
        v.push(101);
    } else
    if j == 5 {
        v.push(67);
        v.push(111);
        v.push(110);
        v.push(116);
        v.push(97);
        v.push(99);
        v.push(116);
    } else
    if j == 6 {
        v.push(82);
        v.push(101);
        v.push(103);
        v.push(105);
        v.push(115);
        v.push(116);
        v.push(114);
        v.push(97);
        v.push(116);
        v.push(105);
        v.push(111);
        v.push(110);
        v.push(32);
        v.push(68);
        v.push(97);
        v.push(116);
        v.push(101);
    } else
    if j == 7 {
        v.push(77);
        v.push(111);
        v.push(100);
        v.push(105);
        v.push(102);
        v.push(105);
        v.push(99);
        v.push(97);
        v.push(116);
        v.push(105);
        v.push(111);
        v.push(110);
        v.push(32);
        v.push(68);
        v.push(97);
        v.push(116);
        v.push(101);
    } else
    if j == 8 {
        v.push(82);
        v.push(101);
        v.push(102);
        v.push(101);
        v.push(114);
        v.push(101);
        v.push(110);
        v.push(99);
        v.push(101);
    } else
    if j == 9 {
        v.push(83);
        v.push(101);
        v.push(114);
        v.push(118);
        v.push(105);
        v.push(99);
        v.push(101);
        v.push(32);
        v.push(67);
        v.push(111);
        v.push(100);
        v.push(101);
    } else
    if j == 10 {
        v.push(85);
        v.push(110);
        v.push(97);
        v.push(117);
        v.push(116);
        v.push(104);
        v.push(111);
        v.push(114);
        v.push(105);
        v.push(122);
        v.push(101);
        v.push(100);
        v.push(32);
        v.push(85);
        v.push(115);
        v.push(101);
        v.push(32);
        v.push(82);
        v.push(101);
        v.push(112);
        v.push(111);
        v.push(114);
        v.push(116);
        v.push(101);
        v.push(100);
    } else
    if j == 11 {
        v.push(65);
        v.push(115);
        v.push(115);
        v.push(105);
        v.push(103);
        v.push(110);
        v.push(109);
        v.push(101);
        v.push(110);
        v.push(116);
        v.push(32);
        v.push(78);
        v.push(111);
        v.push(116);
        v.push(101);
        v.push(115);
    } else {
    }
    proof {
        assert(v@ =~= col_name(j as int));
    }
    v
}

/// Index of the first entry of `hdr` equal to `name`, or -1.
pub open spec fn find_in(hdr: Seq<Seq<u8>>, name: Seq<u8>) -> int
    decreases hdr.len(),
{
    if hdr.len() == 0 {
        -1
    } else if hdr[0] == name {
        0
    } else if find_in(hdr.drop_first(), name) == -1 {
        -1
    } else {
        find_in(hdr.drop_first(), name) + 1
    }
}

proof fn lemma_find_in_range(hdr: Seq<Seq<u8>>, name: Seq<u8>)
    ensures
        find_in(hdr, name) == -1 || (0 <= find_in(hdr, name) < hdr.len()),
    decreases hdr.len(),
{
    if hdr.len() > 0 {
        lemma_find_in_range(hdr.drop_first(), name);
    }
}

proof fn lemma_find_in_skip(hdr: Seq<Seq<u8>>, name: Seq<u8>, i: int)
    requires
        0 <= i <= hdr.len(),
        forall|k: int| 0 <= k < i ==> #[trigger] hdr[k] != name,
    ensures
        find_in(hdr, name) == if find_in(hdr.skip(i), name) == -1 {
            -1
        } else {
            find_in(hdr.skip(i), name) + i
        },
    decreases i,
{
    if i == 0 {
        assert(hdr.skip(0) =~~= hdr);
    } else {
        lemma_find_in_skip(hdr, name, i - 1);
        assert(hdr.skip(i - 1).drop_first() =~~= hdr.skip(i));
        assert(hdr.skip(i - 1)[0] == hdr[i - 1]);
        assert(hdr[i - 1] != name);
        assert(hdr.skip(i - 1).len() > 0);
        assert(find_in(hdr.skip(i - 1), name) == if find_in(hdr.skip(i - 1).drop_first(), name)
            == -1 {
            -1int
        } else {
            find_in(hdr.skip(i - 1).drop_first(), name) + 1
        });
        assert(find_in(hdr.skip(i - 1).drop_first(), name) == find_in(hdr.skip(i), name));
        lemma_find_in_range(hdr.skip(i), name);
    }
}

/// Finds the position of the column headed `name`.
pub fn find_col(hdr: &Vec<Vec<u8>>, name: &Vec<u8>) -> (r: Option<usize>)
    ensures
        match r {
            Some(i) => find_in(hdr.deep_view(), name@) == i && i < hdr@.len(),
            None => find_in(hdr.deep_view(), name@) == -1,
        },
{
    let ghost dv = hdr.deep_view();
    proof {
        assert(forall|j: int| 0 <= j < hdr@.len() ==> dv[j] == #[trigger] hdr@[j]@);
    }
    let mut i: usize = 0;
    while i < hdr.len()
        invariant
            0 <= i <= hdr.len(),
            dv == hdr.deep_view(),
            dv.len() == hdr@.len(),
            forall|j: int| 0 <= j < hdr@.len() ==> dv[j] == #[trigger] hdr@[j]@,
            forall|k: int| 0 <= k < i ==> #[trigger] dv[k] != name@,
        decreases hdr.len() - i,
    {
        if bytes_eq(hdr[i].as_slice(), name.as_slice()) {
            proof {
                lemma_find_in_skip(dv, name@, i as int);
                assert(dv.skip(i as int)[0] == dv[i as int]);
            }
            return Some(i);
        }
        i = i + 1;
    }
    proof {
        lemma_find_in_skip(dv, name@, i as int);
        assert(dv.skip(i as int) =~~= Seq::<Seq<u8>>::empty());
    }
    None
}


/// One registry record, one field per column of the format.
#[derive(Debug)]
pub struct PortRecord {
    pub service_name: Vec<u8>,
    pub port_number: Vec<u8>,
    pub transport_protocol: Vec<u8>,
    pub description: Vec<u8>,
    pub assignee: Vec<u8>,
    pub contact: Vec<u8>,
    pub registration_date: Vec<u8>,
    pub modification_date: Vec<u8>,
    pub reference: Vec<u8>,
    pub service_code: Vec<u8>,
    pub unauthorized_use_reported: Vec<u8>,
    pub assignment_notes: Vec<u8>,
}

impl View for PortRecord {
    type V = Seq<Seq<u8>>;

    /// A record is abstractly its twelve fields, in column order.
    open spec fn view(&self) -> Seq<Seq<u8>> {
        seq![
            self.service_name@,
            self.port_number@,
            self.transport_protocol@,
            self.description@,
            self.assignee@,
            self.contact@,
            self.registration_date@,
            self.modification_date@,
            self.reference@,
            self.service_code@,
            self.unauthorized_use_reported@,
            self.assignment_notes@,
        ]
    }
}

/// The abstract contents of an association list, later entries winning.
pub open spec fn map_of(s: Seq<(Vec<u8>, PortRecord)>) -> Map<Seq<u8>, Seq<Seq<u8>>>
    decreases s.len(),
{
    if s.len() == 0 {
        Map::<Seq<u8>, Seq<Seq<u8>>>::empty()
    } else {
        map_of(s.drop_last()).insert(s.last().0@, s.last().1@)
    }
}

proof fn lemma_map_of_contains(s: Seq<(Vec<u8>, PortRecord)>, k: Seq<u8>)
    ensures
        map_of(s).contains_key(k) <==> exists|i: int| 0 <= i < s.len() && (#[trigger] s[i]).0@
            == k,
    decreases s.len(),
{
    if s.len() > 0 {
        lemma_map_of_contains(s.drop_last(), k);
        if s.last().0@ == k {
            assert(s[s.len() - 1].0@ == k);
        } else if map_of(s).contains_key(k) {
            let i = choose|i: int| 0 <= i < s.drop_last().len() && (#[trigger] s.drop_last()[i]).0@
                == k;
            assert(s[i].0@ == k);
        } else {
            if exists|i: int| 0 <= i < s.len() && (#[trigger] s[i]).0@ == k {
                let i = choose|i: int| 0 <= i < s.len() && (#[trigger] s[i]).0@ == k;
                assert(i < s.len() - 1);
                assert(s.drop_last()[i].0@ == k);
            }
        }
    }
}

/// A lookup table of registry records keyed by port-number string.
/// Abstractly a map from key bytes to record fields.
#[derive(Debug)]
pub struct PortTable {
    entries: Vec<(Vec<u8>, PortRecord)>,
}

impl View for PortTable {
    type V = Map<Seq<u8>, Seq<Seq<u8>>>;

    closed spec fn view(&self) -> Map<Seq<u8>, Seq<Seq<u8>>> {
        map_of(self.entries@)
    }
}

impl PortTable {
    /// An empty table.
    pub fn new() -> (t: PortTable)
        ensures
            t@ == Map::<Seq<u8>, Seq<Seq<u8>>>::empty(),
    {
        let t = PortTable { entries: Vec::new() };
        proof {
            assert(t.entries@.len() == 0);
        }
        t
    }

    /// Stores `rec` under `key`, replacing any earlier record there.
    pub fn insert(&mut self, key: Vec<u8>, rec: PortRecord)
        ensures
            final(self)@ == old(self)@.insert(key@, rec@),
    {
        let ghost e0 = self.entries@;
        self.entries.push((key, rec));
        proof {
            assert(self.entries@.drop_last() =~= e0);
        }
    }

    /// Whether some record is stored under `key`.
    pub fn contains_key(&self, key: &[u8]) -> (r: bool)
        ensures
            r == self@.contains_key(key@),
    {
        proof {
            lemma_map_of_contains(self.entries@, key@);
        }
        let mut i: usize = 0;
        while i < self.entries.len()
            invariant
                0 <= i <= self.entries@.len(),
                forall|k: int| 0 <= k < i ==> (#[trigger] self.entries@[k]).0@ != key@,
            decreases self.entries@.len() - i,
        {
            if bytes_eq(self.entries[i].0.as_slice(), key) {
                proof {
                    assert((self.entries@[i as int]).0@ == key@);
                    assert(exists|k: int|
                        0 <= k < self.entries@.len() && (#[trigger] self.entries@[k]).0@
                            == key@) by {
                        assert(i < self.entries@.len() && (self.entries@[i as int]).0@ == key@);
                    }
                    lemma_map_of_contains(self.entries@, key@);
                    assert(map_of(self.entries@).contains_key(key@));
                }
                return true;
            }
            i = i + 1;
        }
        false
    }

    /// The record stored under `key`, if any.
    pub fn get(&self, key: &[u8]) -> (r: Option<&PortRecord>)
        ensures
            match r {
                Some(rec) => self@.contains_key(key@) && rec@ == self@[key@],
                None => !self@.contains_key(key@),
            },
    {
        proof {
            assert(self.entries@.take(self.entries@.len() as int) =~= self.entries@);
        }
        let mut j: usize = self.entries.len();
        while j > 0
            invariant
                0 <= j <= self.entries@.len(),
                map_of(self.entries@).contains_key(key@) == map_of(
                    self.entries@.take(j as int),
                ).contains_key(key@),
                map_of(self.entries@).contains_key(key@) ==> map_of(self.entries@)[key@]
                    == map_of(self.entries@.take(j as int))[key@],
            decreases j,
        {
            proof {
                assert(self.entries@.take(j as int).drop_last() =~= self.entries@.take(j - 1));
                assert(self.entries@.take(j as int).last() == self.entries@[j - 1]);
            }
            if bytes_eq(self.entries[j - 1].0.as_slice(), key) {
                return Some(&self.entries[j - 1].1);
            }
            j = j - 1;
        }
        proof {
            assert(self.entries@.take(0) =~= Seq::<(Vec<u8>, PortRecord)>::empty());
        }
        None
    }
}

/// The protocol name `tcp`, compared case-insensitively.
pub open spec fn is_tcp(s: Seq<u8>) -> bool {
    s.len() == 3 && ascii_lower(s[0]) == 116 && ascii_lower(s[1]) == 99 && ascii_lower(s[2])
        == 112
}

/// The protocol name `udp`, compared case-insensitively.
pub open spec fn is_udp(s: Seq<u8>) -> bool {
    s.len() == 3 && ascii_lower(s[0]) == 117 && ascii_lower(s[1]) == 100 && ascii_lower(s[2])
        == 112
}

/// Every column the format names occurs in the header.
pub open spec fn header_ok(hdr: Seq<Seq<u8>>) -> bool {
    forall|j: int| 0 <= j < 12 ==> find_in(hdr, #[trigger] col_name(j)) != -1
}

/// The field of `row` under column `j` of the format, located by the
/// header.
pub open spec fn field_of(row: Seq<Seq<u8>>, hdr: Seq<Seq<u8>>, j: int) -> Seq<u8> {
    row[find_in(hdr, col_name(j))]
}

/// `row` is long enough for every column the header locates.
pub open spec fn row_fits(row: Seq<Seq<u8>>, hdr: Seq<Seq<u8>>) -> bool {
    forall|j: int| 0 <= j < 12 ==> find_in(hdr, #[trigger] col_name(j)) < row.len()
}

/// The record a row yields: its twelve fields in column order.
pub open spec fn record_of(row: Seq<Seq<u8>>, hdr: Seq<Seq<u8>>) -> Seq<Seq<u8>> {
    Seq::new(12, |j: int| field_of(row, hdr, j))
}

/// The abstract contents of the three lookup tables.
pub struct TableViews {
    pub tcp: Map<Seq<u8>, Seq<Seq<u8>>>,
    pub udp: Map<Seq<u8>, Seq<Seq<u8>>>,
    pub ranges: Map<Seq<u8>, Seq<Seq<u8>>>,
}

/// Three empty tables.
pub open spec fn empty_tables() -> TableViews {
    TableViews {
        tcp: Map::<Seq<u8>, Seq<Seq<u8>>>::empty(),
        udp: Map::<Seq<u8>, Seq<Seq<u8>>>::empty(),
        ranges: Map::<Seq<u8>, Seq<Seq<u8>>>::empty(),
    }
}

/// What one record does to the tables: records with an empty service
/// name or port number are skipped; a ranged port number (one holding a
/// hyphen) is set aside into the range table; otherwise a port number
/// that parses goes into the table of its transport protocol, and
/// unrecognized protocols are skipped.
pub open spec fn row_step(acc: TableViews, row: Seq<Seq<u8>>, hdr: Seq<Seq<u8>>) -> TableViews {
    let svc = field_of(row, hdr, 0);
    let port = field_of(row, hdr, 1);
    let proto = field_of(row, hdr, 2);
    let rec = record_of(row, hdr);
    if port.len() == 0 || svc.len() == 0 {
        acc
    } else if has_byte(port, 45) {
        TableViews { tcp: acc.tcp, udp: acc.udp, ranges: acc.ranges.insert(port, rec) }
    } else if is_port_str(port) {
        if is_tcp(proto) {
            TableViews { tcp: acc.tcp.insert(port, rec), udp: acc.udp, ranges: acc.ranges }
        } else if is_udp(proto) {
            TableViews { tcp: acc.tcp, udp: acc.udp.insert(port, rec), ranges: acc.ranges }
        } else {
            acc
        }
    } else {
        acc
    }
}

/// The tables after a run of records, stopping at the first record too
/// short for the header.
pub open spec fn fold_rows(rows: Seq<Seq<Seq<u8>>>, hdr: Seq<Seq<u8>>, acc: TableViews) -> Result<
    TableViews,
    RegistryError,
>
    decreases rows.len(),
{
    if rows.len() == 0 {
        Ok(acc)
    } else if !row_fits(rows[0], hdr) {
        Err(RegistryError::ShortRow)
    } else {
        fold_rows(rows.drop_first(), hdr, row_step(acc, rows[0], hdr))
    }
}

/// What a whole record listing yields: the first row is the header; a
/// listing without data rows yields empty tables; with data rows, every
/// named column must occur in the header.
pub open spec fn spec_load(rows: Seq<Seq<Seq<u8>>>) -> Result<TableViews, RegistryError> {
    if rows.len() <= 1 {
        Ok(empty_tables())
    } else if !header_ok(rows[0]) {
        Err(RegistryError::MissingColumn)
    } else {
        fold_rows(rows.drop_first(), rows[0], empty_tables())
    }
}

/// Law: a record whose port number holds a hyphen is set aside into the
/// range table and touches neither the TCP nor the UDP table.
pub proof fn lemma_range_row_placement(acc: TableViews, row: Seq<Seq<u8>>, hdr: Seq<Seq<u8>>)
    requires
        field_of(row, hdr, 0).len() > 0,
        field_of(row, hdr, 1).len() > 0,
        has_byte(field_of(row, hdr, 1), 45),
    ensures
        row_step(acc, row, hdr).tcp == acc.tcp,
        row_step(acc, row, hdr).udp == acc.udp,
        row_step(acc, row, hdr).ranges == acc.ranges.insert(
            field_of(row, hdr, 1),
            record_of(row, hdr),
        ),
{
}

/// Law: a record with a plain parseable port number and protocol `tcp`
/// (in any letter case) goes into the TCP table alone.
pub proof fn lemma_tcp_row_placement(acc: TableViews, row: Seq<Seq<u8>>, hdr: Seq<Seq<u8>>)
    requires
        field_of(row, hdr, 0).len() > 0,
        field_of(row, hdr, 1).len() > 0,
        !has_byte(field_of(row, hdr, 1), 45),
        is_port_str(field_of(row, hdr, 1)),
        is_tcp(field_of(row, hdr, 2)),
    ensures
        row_step(acc, row, hdr).tcp == acc.tcp.insert(
            field_of(row, hdr, 1),
            record_of(row, hdr),
        ),
        row_step(acc, row, hdr).udp == acc.udp,
        row_step(acc, row, hdr).ranges == acc.ranges,
{
    assert(!is_udp(field_of(row, hdr, 2)) || !is_tcp(field_of(row, hdr, 2)));
}

/// The three lookup tables the registry yields.
#[derive(Debug)]
pub struct PortTables {
    /// Records keyed by port number, TCP transport.
    pub tcp: PortTable,
    /// Records keyed by port number, UDP transport.
    pub udp: PortTable,
    /// Records whose port number is a range, keyed by that range.
    pub ranges: PortTable,
}

/// Exec mirror of `is_tcp`.
fn is_tcp_x(s: &[u8]) -> (r: bool)
    ensures
        r == is_tcp(s@),
{
    s.len() == 3 && crate::scan::ascii_lower_x(s[0]) == 116 && crate::scan::ascii_lower_x(s[1])
        == 99 && crate::scan::ascii_lower_x(s[2]) == 112
}

/// Exec mirror of `is_udp`.
fn is_udp_x(s: &[u8]) -> (r: bool)
    ensures
        r == is_udp(s@),
{
    s.len() == 3 && crate::scan::ascii_lower_x(s[0]) == 117 && crate::scan::ascii_lower_x(s[1])
        == 100 && crate::scan::ascii_lower_x(s[2]) == 112
}

/// Builds the record of one row under the resolved column positions.
fn build_record(row: &Vec<Vec<u8>>, idxs: &Vec<usize>, Ghost(hdr): Ghost<Seq<Seq<u8>>>) -> (rec:
    PortRecord)
    requires
        idxs@.len() == 12,
        forall|j: int| 0 <= j < 12 ==> idxs@[j] == find_in(hdr, #[trigger] col_name(j)),
        forall|j: int| 0 <= j < 12 ==> idxs@[j] < row@.len(),
    ensures
        rec@ == record_of(row.deep_view(), hdr),
{
    proof {
        assert(forall|k: int|
            0 <= k < row@.len() ==> row.deep_view()[k] == #[trigger] row@[k]@);
    }
    let rec = PortRecord {
        service_name: copy_bytes(row[idxs[0]].as_slice()),
        port_number: copy_bytes(row[idxs[1]].as_slice()),
        transport_protocol: copy_bytes(row[idxs[2]].as_slice()),
        description: copy_bytes(row[idxs[3]].as_slice()),
        assignee: copy_bytes(row[idxs[4]].as_slice()),
        contact: copy_bytes(row[idxs[5]].as_slice()),
        registration_date: copy_bytes(row[idxs[6]].as_slice()),
        modification_date: copy_bytes(row[idxs[7]].as_slice()),
        reference: copy_bytes(row[idxs[8]].as_slice()),
        service_code: copy_bytes(row[idxs[9]].as_slice()),
        unauthorized_use_reported: copy_bytes(row[idxs[10]].as_slice()),
        assignment_notes: copy_bytes(row[idxs[11]].as_slice()),
    };
    proof {
        assert(rec@ =~~= record_of(row.deep_view(), hdr));
    }
    rec
}

/// Classifies a listing of records (header row first) into the three
/// tables.
#[verifier::loop_isolation(false)]
pub fn classify_rows(rows: &Vec<Vec<Vec<u8>>>) -> (r: Result<PortTables, RegistryError>)
    ensures
        match r {
            Ok(t) => spec_load(rows.deep_view()) matches Ok(v) && t.tcp@ == v.tcp && t.udp@
                == v.udp && t.ranges@ == v.ranges,
            Err(e) => spec_load(rows.deep_view()) == Err::<TableViews, RegistryError>(e),
        },
{
    let ghost dv = rows.deep_view();
    proof {
        assert(forall|k: int| 0 <= k < rows@.len() ==> dv[k] == #[trigger] rows@[k].deep_view());
        assert(dv.len() == rows@.len());
    }
    let mut tcp = PortTable::new();
    let mut udp = PortTable::new();
    let mut ranges = PortTable::new();
    if rows.len() <= 1 {
        return Ok(PortTables { tcp, udp, ranges });
    }
    let ghost hdrv = dv[0];
    let mut idxs: Vec<usize> = Vec::new();
    let mut j: usize = 0;
    while j < 12
        invariant
            0 <= j <= 12,
            rows@.len() > 1,
            dv == rows.deep_view(),
            dv.len() == rows@.len(),
            hdrv == dv[0],
            forall|k: int|
                0 <= k < rows@.len() ==> dv[k] == #[trigger] rows@[k].deep_view(),
            idxs@.len() == j,
            forall|q: int|
                0 <= q < j ==> idxs@[q] == find_in(hdrv, #[trigger] col_name(q)) && find_in(
                    hdrv,
                    col_name(q),
                ) != -1,
        decreases 12 - j,
    {
        let name = col_name_x(j);
        match find_col(&rows[0], &name) {
            Some(i) => {
                idxs.push(i);
            },
            None => {
                proof {
                    assert(find_in(hdrv, col_name(j as int)) == -1);
                    assert(!header_ok(hdrv));
                }
                return Err(RegistryError::MissingColumn);
            },
        }
        j = j + 1;
    }
    proof {
        assert(header_ok(hdrv));
    }
    let mut i: usize = 1;
    while i < rows.len()
        invariant
            1 <= i <= rows@.len(),
            rows@.len() > 1,
            dv == rows.deep_view(),
            dv.len() == rows@.len(),
            hdrv == dv[0],
            header_ok(hdrv),
            forall|k: int|
                0 <= k < rows@.len() ==> dv[k] == #[trigger] rows@[k].deep_view(),
            idxs@.len() == 12,
            forall|q: int|
                0 <= q < 12 ==> idxs@[q] == find_in(hdrv, #[trigger] col_name(q)) && find_in(
                    hdrv,
                    col_name(q),
                ) != -1,
            fold_rows(dv.skip(1), hdrv, empty_tables()) == fold_rows(
                dv.skip(i as int),
                hdrv,
                TableViews { tcp: tcp@, udp: udp@, ranges: ranges@ },
            ),
        decreases rows@.len() - i,
    {
        let ghost acc0 = TableViews { tcp: tcp@, udp: udp@, ranges: ranges@ };
        let ghost rowv = dv[i as int];
        proof {
            assert(dv.skip(i as int)[0] == dv[i as int]);
            assert(dv.skip(i as int).drop_first() =~~= dv.skip(i + 1));
        }
        let row = &rows[i];
        let mut q: usize = 0;
        while q < 12
            invariant
                0 <= q <= 12,
                idxs@.len() == 12,
                row@ == rows@[i as int]@,
                rowv == dv[i as int],
                dv == rows.deep_view(),
                dv.len() == rows@.len(),
                0 <= i < rows@.len(),
                forall|k: int|
                    0 <= k < rows@.len() ==> dv[k] == #[trigger] rows@[k].deep_view(),
                hdrv == dv[0],
                forall|t: int|
                    0 <= t < 12 ==> idxs@[t] == find_in(hdrv, #[trigger] col_name(t)),
                forall|t: int| 0 <= t < q ==> idxs@[t] < row@.len(),
            decreases 12 - q,
        {
            if idxs[q] >= row.len() {
                proof {
                    assert(find_in(hdrv, col_name(q as int)) >= rowv.len());
                    assert(!row_fits(rowv, hdrv));
                    assert(fold_rows(dv.skip(i as int), hdrv, acc0) == Err::<
                        TableViews,
                        RegistryError,
                    >(RegistryError::ShortRow));
                }
                return Err(RegistryError::ShortRow);
            }
            q = q + 1;
        }
        proof {
            assert(row_fits(rowv, hdrv)) by {
                assert(forall|t: int|
                    0 <= t < 12 ==> find_in(hdrv, #[trigger] col_name(t)) < rowv.len());
            }
            assert(forall|k: int| 0 <= k < row@.len() ==> rowv[k] == #[trigger] row@[k]@);
        }
        let svc = &row[idxs[0]];
        let port = &row[idxs[1]];
        let proto = &row[idxs[2]];
        proof {
            assert(svc@ == field_of(rowv, hdrv, 0));
            assert(port@ == field_of(rowv, hdrv, 1));
            assert(proto@ == field_of(rowv, hdrv, 2));
        }
        if port.len() > 0 && svc.len() > 0 {
            if has_byte_x(port.as_slice(), 45) {
                let rec = build_record(row, &idxs, Ghost(hdrv));
                let key = copy_bytes(port.as_slice());
                ranges.insert(key, rec);
            } else if crate::address::parse_port(port.as_slice()).is_some() {
                if is_tcp_x(proto.as_slice()) {
                    let rec = build_record(row, &idxs, Ghost(hdrv));
                    let key = copy_bytes(port.as_slice());
                    tcp.insert(key, rec);
                } else if is_udp_x(proto.as_slice()) {
                    let rec = build_record(row, &idxs, Ghost(hdrv));
                    let key = copy_bytes(port.as_slice());
                    udp.insert(key, rec);
                }
            }
        }
        proof {
            assert(TableViews { tcp: tcp@, udp: udp@, ranges: ranges@ } == row_step(
                acc0,
                rowv,
                hdrv,
            ));
            assert(fold_rows(dv.skip(i as int), hdrv, acc0) == fold_rows(
                dv.skip(i + 1),
                hdrv,
                row_step(acc0, rowv, hdrv),
            ));
        }
        i = i + 1;
    }
    proof {
        assert(dv.skip(i as int) =~~= Seq::<Seq<Seq<u8>>>::empty());
        assert(fold_rows(dv.skip(i as int), hdrv, TableViews { tcp: tcp@, udp: udp@, ranges: ranges@ })
            == Ok::<TableViews, RegistryError>(
            TableViews { tcp: tcp@, udp: udp@, ranges: ranges@ },
        ));
    }
    Ok(PortTables { tcp, udp, ranges })
}

/// Loads the port-service registry from CSV text: two lookup tables
/// keyed by port-number string, one per transport protocol, and a table
/// of ranged records set aside.
pub fn load_port_services(data: &[u8]) -> (r: Result<PortTables, RegistryError>)
    ensures
        match csv_records_of(data@) {
            Some(rows) => match r {
                Ok(t) => spec_load(rows) matches Ok(v) && t.tcp@ == v.tcp && t.udp@ == v.udp
                    && t.ranges@ == v.ranges,
                Err(e) => spec_load(rows) == Err::<TableViews, RegistryError>(e),
            },
            None => r matches Err(e) && e == RegistryError::Csv,
        },
{
    match csv_split(data) {
        Ok(rows) => classify_rows(&rows),
        Err(_) => Err(RegistryError::Csv),
    }
}

} // verus!
