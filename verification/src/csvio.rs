use vstd::prelude::*;
use crate::ast::EngineError;
use crate::relation::SequentialScan;

verus! {

/// What the CSV codec makes of one byte document: nothing when the
/// header record cannot be read; otherwise the header fields and the
/// data records that parse cleanly, cut at the first malformed record.
pub uninterp spec fn csv_table_of(bytes: Seq<u8>) -> Option<(Seq<Seq<char>>, Seq<Seq<Seq<char>>>)>;

/// The CSV document the codec writes for a sequence of records.
pub uninterp spec fn csv_encoding_of(records: Seq<Seq<Seq<char>>>) -> Seq<u8>;

/// Relies on `csv::Reader`: the first record of a document is its header;
/// a data record with a field count different from the header's is an
/// error, so every record handed back is exactly as wide as the header;
/// reading stops at the first erroneous record, whose rendered message is
/// handed back for the diagnostic stream.
#[verifier::external_body]
fn csv_parse(bytes: &Vec<u8>) -> (r: Result<(Vec<String>, Vec<Vec<String>>, Option<String>), String>)
    ensures
        match r {
            Ok(parts) => {
                &&& csv_table_of(bytes@) == Some((parts.0.deep_view(), parts.1.deep_view()))
                &&& forall|i: int|
                    0 <= i < parts.1@.len() ==> (#[trigger] parts.1@[i])@.len() == parts.0@.len()
            },
            Err(_) => csv_table_of(bytes@) is None,
        },
{
    let mut rdr = csv::Reader::from_reader(bytes.as_slice());
    let header: Vec<String> = match rdr.headers() {
        Ok(h) => h.iter().map(|f| f.to_string()).collect(),
        Err(e) => return Err(e.to_string()),
    };
    let mut records: Vec<Vec<String>> = Vec::new();
    let mut diagnostic: Option<String> = None;
    for item in rdr.records() {
        match item {
            Ok(rec) => records.push(rec.iter().map(|f| f.to_string()).collect()),
            Err(e) => { diagnostic = Some(e.to_string()); break; },
        }
    }
    Ok((header, records, diagnostic))
}

/// Relies on `csv::Writer`: renders records into one CSV document in
/// memory, one record per line; its only failure is a record whose field
/// count differs from the first record's, which `requires` rules out.
#[verifier::external_body]
pub(crate) fn csv_write(records: &Vec<Vec<String>>) -> (r: Vec<u8>)
    requires
        forall|i: int|
            0 <= i < records@.len() ==> (#[trigger] records@[i])@.len() == records@[0]@.len(),
    ensures
        r@ == csv_encoding_of(records.deep_view()),
{
    let mut w = csv::Writer::from_writer(Vec::new());
    for rec in records.iter() {
        w.write_record(rec).unwrap();
    }
    w.into_inner().unwrap()
}

impl SequentialScan {
    /// Build the scan leaf for one CSV document. An unreadable header is
    /// fatal; a malformed data record truncates the relation there, and
    /// the codec's message comes back for the diagnostic stream.
    pub fn from_csv(bytes: &Vec<u8>) -> (r: Result<(SequentialScan, Option<String>), EngineError>)
        ensures
            match r {
                Ok(p) => {
                    &&& csv_table_of(bytes@) is Some
                    &&& p.0.wf()
                    &&& p.0.cursor == 0
                    &&& p.0.header.deep_view() == csv_table_of(bytes@)->Some_0.0
                    &&& p.0.records.deep_view() == csv_table_of(bytes@)->Some_0.1
                },
                Err(e) => csv_table_of(bytes@) is None && e == EngineError::BadSource,
            },
    {
        match csv_parse(bytes) {
            Ok((header, records, diagnostic)) => {
                let scan = SequentialScan { header, records, cursor: 0 };
                Ok((scan, diagnostic))
            },
            Err(_) => Err(EngineError::BadSource),
        }
    }
}

} // verus!
