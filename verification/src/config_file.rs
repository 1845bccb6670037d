//! One found and parsed properties file.
use vstd::prelude::*;
use vstd::string::StringExecFns;
use crate::strmap::distinct_keys;
use crate::strmap::pairs_to_map;

verus! {

/// The mathematical content of one parsed properties file: its provenance
/// identifier and its key/value pairs, keys as parsed.
pub struct FileView {
    pub filename: Seq<char>,
    pub pairs: Seq<(Seq<char>, Seq<char>)>,
}

/// One properties file that was found and parsed: its bare filename, used as
/// the provenance identifier, and its key/value pairs, case-preserved.
pub struct CapoConfigurationFile {
    pub filename: String,
    pub options: Vec<(String, String)>,
}

impl View for CapoConfigurationFile {
    type V = FileView;

    open spec fn view(&self) -> FileView {
        FileView { filename: self.filename@, pairs: self.options.deep_view() }
    }
}

/// What the conventional properties text format means as bytes: `None` when
/// the text is structurally invalid, else the parsed key/value map.
pub uninterp spec fn parsed_props(bytes: Seq<u8>) -> Option<Map<Seq<char>, Seq<char>>>;

/// Relies on java_properties::read: the parse is a function of the bytes
/// alone, and the pairs come out of a map, so no key repeats.  The order the
/// pairs are handed back in is not fixed.
#[verifier::external_body]
fn read_props(contents: &[u8]) -> (r: Option<Vec<(String, String)>>)
    ensures
        match r {
            Some(ps) => parsed_props(contents@) is Some && distinct_keys(ps.deep_view())
                && pairs_to_map(ps.deep_view()) == parsed_props(contents@).unwrap(),
            None => parsed_props(contents@) is None,
        },
{
    match java_properties::read(contents) {
        Ok(map) => Some(map.into_iter().collect()),
        Err(_) => None,
    }
}

impl CapoConfigurationFile {
    /// Parse the contents of the properties file `{profile}.properties`.
    /// The filename, not the full path, is kept as provenance.  Structurally
    /// invalid text yields no file, a non-fatal outcome.
    pub fn from_bytes(profile: &str, contents: &[u8]) -> (r: Option<CapoConfigurationFile>)
        ensures
            match r {
                Some(f) => {
                    &&& parsed_props(contents@) is Some
                    &&& f@.filename == profile@ + ".properties"@
                    &&& distinct_keys(f@.pairs)
                    &&& pairs_to_map(f@.pairs) == parsed_props(contents@).unwrap()
                },
                None => parsed_props(contents@) is None,
            },
    {
        let options = match read_props(contents) {
            Some(o) => o,
            None => {
                return None;
            },
        };
        let mut filename: String = profile.to_owned();
        filename.append(".properties");
        Some(CapoConfigurationFile { filename, options })
    }
}

} // verus!
