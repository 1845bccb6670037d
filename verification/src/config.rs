//! The configuration resolver.
//!
//! A resolver owns a profile and an ordered search path.  Each directory of
//! the path may contribute one parsed properties file; the files' key/value
//! pairs are folded, in path order, into one case-normalized table together
//! with a parallel table naming the file that last set each key.  All reads
//! are pure lookups against those two tables.
use vstd::prelude::*;
use vstd::string::StrSliceExecFns;
use vstd::string::StringExecFns;
use crate::casefold::lower_of;
use crate::casefold::to_lower;
use crate::casefold::to_upper;
use crate::casefold::upper_of;
use crate::config_file::CapoConfigurationFile;
use crate::config_file::FileView;
use crate::defaults::DEFAULT_CAPO_PATH;
use crate::errors::CapoError;
use crate::numparse::parse_i128;
use crate::numparse::parse_u128;
use crate::numparse::spec_parse_signed;
use crate::numparse::spec_parse_unsigned;
use crate::strmap::StringMap;

verus! {

/// Fold one file's pairs over an accumulated options table: each key is
/// folded to upper case and unconditionally overwritten, so within the file
/// the later pair wins.
pub open spec fn merge_pairs(
    acc: Map<Seq<char>, Seq<char>>,
    ps: Seq<(Seq<char>, Seq<char>)>,
) -> Map<Seq<char>, Seq<char>>
    decreases ps.len(),
{
    if ps.len() == 0 {
        acc
    } else {
        merge_pairs(acc, ps.drop_last()).insert(upper_of(ps.last().0), ps.last().1)
    }
}

/// Fold one file's pairs over an accumulated locations table: every key the
/// file defines is attributed to that file.
pub open spec fn merge_locs(
    acc: Map<Seq<char>, Seq<char>>,
    ps: Seq<(Seq<char>, Seq<char>)>,
    filename: Seq<char>,
) -> Map<Seq<char>, Seq<char>>
    decreases ps.len(),
{
    if ps.len() == 0 {
        acc
    } else {
        merge_locs(acc, ps.drop_last(), filename).insert(upper_of(ps.last().0), filename)
    }
}

/// The options table after merging the files in order, later files
/// overriding earlier ones key by key.
pub open spec fn merge_files_options(
    acc: Map<Seq<char>, Seq<char>>,
    files: Seq<FileView>,
) -> Map<Seq<char>, Seq<char>>
    decreases files.len(),
{
    if files.len() == 0 {
        acc
    } else {
        merge_pairs(merge_files_options(acc, files.drop_last()), files.last().pairs)
    }
}

/// The locations table after merging the files in order.
pub open spec fn merge_files_locations(
    acc: Map<Seq<char>, Seq<char>>,
    files: Seq<FileView>,
) -> Map<Seq<char>, Seq<char>>
    decreases files.len(),
{
    if files.len() == 0 {
        acc
    } else {
        merge_locs(
            merge_files_locations(acc, files.drop_last()),
            files.last().pairs,
            files.last().filename,
        )
    }
}

/// The merged options of a file list, starting from nothing.
pub open spec fn merged_options(files: Seq<FileView>) -> Map<Seq<char>, Seq<char>> {
    merge_files_options(Map::empty(), files)
}

/// The merged locations of a file list, starting from nothing.
pub open spec fn merged_locations(files: Seq<FileView>) -> Map<Seq<char>, Seq<char>> {
    merge_files_locations(Map::empty(), files)
}

/// The mathematical content of a file list.
pub open spec fn files_view(files: Seq<CapoConfigurationFile>) -> Seq<FileView> {
    files.map_values(|f: CapoConfigurationFile| f@)
}

/// A lookup in a merged table: the key is folded to upper case first.
pub open spec fn spec_get(m: Map<Seq<char>, Seq<char>>, key: Seq<char>) -> Option<Seq<char>> {
    if m.contains_key(upper_of(key)) {
        Some(m[upper_of(key)])
    } else {
        None
    }
}

/// An unsigned typed lookup: the value must denote an unsigned integer no
/// greater than `max`; a missing key and an unparsable value are alike.
pub open spec fn spec_get_uint(m: Map<Seq<char>, Seq<char>>, key: Seq<char>, max: int) -> Option<
    int,
> {
    match spec_get(m, key) {
        Some(v) => match spec_parse_unsigned(v) {
            Some(n) => if n <= max {
                Some(n)
            } else {
                None
            },
            None => None,
        },
        None => None,
    }
}

/// A signed typed lookup: the value must denote a signed integer inside
/// `[min, max]`; a missing key and an unparsable value are alike.
pub open spec fn spec_get_sint(
    m: Map<Seq<char>, Seq<char>>,
    key: Seq<char>,
    min: int,
    max: int,
) -> Option<int> {
    match spec_get(m, key) {
        Some(v) => match spec_parse_signed(v) {
            Some(n) => if min <= n <= max {
                Some(n)
            } else {
                None
            },
            None => None,
        },
        None => None,
    }
}

/// A boolean lookup: the value, folded to lower case, must read `yes`,
/// `true`, `no` or `false`; anything else is as absent as a missing key.
pub open spec fn spec_get_bool(m: Map<Seq<char>, Seq<char>>, key: Seq<char>) -> Option<bool> {
    match spec_get(m, key) {
        Some(v) => {
            let l = lower_of(v);
            if l == "yes"@ || l == "true"@ {
                Some(true)
            } else if l == "no"@ || l == "false"@ {
                Some(false)
            } else {
                None
            }
        },
        None => None,
    }
}

/// The base search path: the explicit one when given, else the built-in
/// default list.
pub open spec fn spec_base_path(path: Option<String>) -> Seq<char> {
    match path {
        Some(p) => p@,
        None => DEFAULT_CAPO_PATH@,
    }
}

/// The full search path: the base with the home-derived entry appended as
/// the final, highest-priority element.
pub open spec fn spec_search_path(base: Seq<char>, home: Seq<char>) -> Seq<char> {
    base + ":"@ + home + ".capo"@
}

/// A path split at every colon, order preserved.
pub open spec fn split_colon(s: Seq<char>) -> Seq<Seq<char>>
    decreases s.len(),
{
    if s.len() == 0 {
        seq![Seq::<char>::empty()]
    } else if s[0] == ':' {
        seq![Seq::<char>::empty()] + split_colon(s.skip(1))
    } else {
        let rest = split_colon(s.skip(1));
        seq![seq![s[0]] + rest[0]] + rest.skip(1)
    }
}

proof fn lemma_split_colon_no_colon(s: Seq<char>)
    requires
        forall|i: int| 0 <= i < s.len() ==> s[i] != ':',
    ensures
        split_colon(s) == seq![s],
    decreases s.len(),
{
    if s.len() == 0 {
        assert(split_colon(s) =~~= seq![s]);
    } else {
        assert forall|i: int| 0 <= i < s.skip(1).len() implies s.skip(1)[i] != ':' by {
            assert(s.skip(1)[i] == s[i + 1]);
        }
        lemma_split_colon_no_colon(s.skip(1));
        assert(split_colon(s) =~~= seq![s]);
    }
}

proof fn lemma_split_colon_first(s: Seq<char>, i: int)
    requires
        0 <= i < s.len(),
        s[i] == ':',
        forall|j: int| 0 <= j < i ==> s[j] != ':',
    ensures
        split_colon(s) == seq![s.take(i)] + split_colon(s.skip(i + 1)),
    decreases i,
{
    if i == 0 {
        assert(split_colon(s) =~~= seq![s.take(0)] + split_colon(s.skip(1)));
    } else {
        let t = s.skip(1);
        assert(t[i - 1] == s[i]);
        assert forall|j: int| 0 <= j < i - 1 implies t[j] != ':' by {
            assert(t[j] == s[j + 1]);
        }
        lemma_split_colon_first(t, i - 1);
        assert(t.skip(i) =~= s.skip(i + 1));
        assert(seq![s[0]] + t.take(i - 1) =~= s.take(i));
        assert(split_colon(s) =~~= seq![s.take(i)] + split_colon(s.skip(i + 1)));
    }
}

/// Relies on dirs::home_dir: the user's home directory, if one can be
/// determined from the environment.  Nothing more is promised of it.
#[verifier::external_body]
fn home_dir_string() -> (r: Option<String>) {
    match dirs::home_dir() {
        Some(h) => Some(format!("{}", h.display())),
        None => None,
    }
}

/// The struct for fetching CAPO configuration settings.
pub struct CapoConfig {
    pub profile: String,
    pub path: String,
    pub options: StringMap,
    pub locations: StringMap,
    pub cfg_files: Vec<CapoConfigurationFile>,
}

impl CapoConfig {
    /// Well-formed: both merged tables are.
    pub open spec fn wf(&self) -> bool {
        self.options.wf() && self.locations.wf()
    }

    /// The profile is mandatory: the explicit value when given, else a fatal
    /// error.  Reading an environment fallback is the calling layer's
    /// business; it hands the result in here.
    pub fn resolve_profile(profile: Option<String>) -> (r: Result<String, CapoError>)
        ensures
            match r {
                Ok(p) => profile == Some(p),
                Err(e) => profile is None && e.status_code == 2,
            },
    {
        match profile {
            Some(p) => Ok(p),
            None => Err(CapoError::profile_error()),
        }
    }

    /// Append the home-derived entry to the base search path, so that
    /// user-specific configuration always overrides shared configuration.
    pub fn build_search_path(path: Option<String>, home: &str) -> (r: String)
        ensures
            r@ == spec_search_path(spec_base_path(path), home@),
    {
        let mut base: String = match path {
            Some(p) => p,
            None => DEFAULT_CAPO_PATH.to_owned(),
        };
        base.append(":");
        base.append(home);
        base.append(".capo");
        base
    }

    /// The search path: the explicit value when given, else the built-in
    /// default, always with the home-derived entry appended last.  Fails
    /// fatally when no home directory can be determined.
    pub fn resolve_path(path: Option<String>) -> (r: Result<String, CapoError>)
        ensures
            match r {
                Ok(p) => exists|h: Seq<char>| p@ == spec_search_path(spec_base_path(path), h),
                Err(e) => e.status_code == 6,
            },
    {
        match home_dir_string() {
            Some(h) => {
                let p = Self::build_search_path(path, h.as_str());
                proof {
                    assert(p@ == spec_search_path(spec_base_path(path), h@));
                }
                Ok(p)
            },
            None => Err(CapoError::home_dir_error()),
        }
    }

    /// Split a search path on the fixed `:` delimiter, preserving order.
    pub fn split_path(path: &str) -> (r: Vec<String>)
        ensures
            r.deep_view() == split_colon(path@),
        decreases path@.len(),
    {
        let n = path.unicode_len();
        let mut i: usize = 0;
        while i < n
            invariant
                i <= n,
                n == path@.len(),
                forall|j: int| 0 <= j < i ==> path@[j] != ':',
            decreases n - i,
        {
            if path.get_char(i) == ':' {
                let head = path.substring_char(0, i).to_owned();
                let tail = path.substring_char(i + 1, n);
                let mut rest = Self::split_path(tail);
                let ghost rest_dv = rest.deep_view();
                let ghost rest_v = rest@;
                rest.insert(0, head);
                proof {
                    lemma_split_colon_first(path@, i as int);
                    assert forall|k: int| 0 <= k < rest.deep_view().len() implies rest.deep_view()[k]
                        == (seq![path@.take(i as int)] + split_colon(path@.skip(i as int + 1)))[k]
                        by {
                        assert(rest.deep_view()[k] == rest@[k].deep_view());
                        if k > 0 {
                            assert(rest@[k] == rest_v[k - 1]);
                            assert(rest_dv[k - 1] == rest_v[k - 1].deep_view());
                        }
                    }
                    assert(rest.deep_view() =~= seq![path@.take(i as int)] + split_colon(
                        path@.skip(i as int + 1),
                    ));
                }
                return rest;
            }
            i = i + 1;
        }
        proof {
            lemma_split_colon_no_colon(path@);
        }
        let mut whole: Vec<String> = Vec::new();
        whole.push(path.to_owned());
        proof {
            assert(whole.deep_view() =~= seq![path@]);
        }
        whole
    }

    /// Create a single properties table, with provenance, from all loaded
    /// configuration files: every pair of every file, in file order, has its
    /// key folded to upper case and written over both tables, so the last
    /// writer per key wins.
    pub fn load_merged_config(&mut self)
        requires
            old(self).options.wf(),
            old(self).locations.wf(),
        ensures
            final(self).options@ == merge_files_options(
                old(self).options@,
                files_view(old(self).cfg_files@),
            ),
            final(self).locations@ == merge_files_locations(
                old(self).locations@,
                files_view(old(self).cfg_files@),
            ),
            final(self).options.wf(),
            final(self).locations.wf(),
            final(self).profile == old(self).profile,
            final(self).path == old(self).path,
            final(self).cfg_files == old(self).cfg_files,
    {
        let ghost fv = files_view(self.cfg_files@);
        let nf = self.cfg_files.len();
        let mut fi: usize = 0;
        while fi < nf
            invariant
                nf == self.cfg_files@.len(),
                fi <= nf,
                fv == files_view(self.cfg_files@),
                self.cfg_files == old(self).cfg_files,
                self.profile == old(self).profile,
                self.path == old(self).path,
                self.options.wf(),
                self.locations.wf(),
                self.options@ == merge_files_options(old(self).options@, fv.take(fi as int)),
                self.locations@ == merge_files_locations(old(self).locations@, fv.take(fi as int)),
            decreases nf - fi,
        {
            let ghost base_o = self.options@;
            let ghost base_l = self.locations@;
            let ghost dv = self.cfg_files@[fi as int].options.deep_view();
            let ghost fname = self.cfg_files@[fi as int].filename@;
            let np = self.cfg_files[fi].options.len();
            let mut pi: usize = 0;
            while pi < np
                invariant
                    nf == self.cfg_files@.len(),
                    fi < nf,
                    np == self.cfg_files@[fi as int].options@.len(),
                    pi <= np,
                    dv == self.cfg_files@[fi as int].options.deep_view(),
                    fname == self.cfg_files@[fi as int].filename@,
                    self.cfg_files == old(self).cfg_files,
                    self.profile == old(self).profile,
                    self.path == old(self).path,
                    self.options.wf(),
                    self.locations.wf(),
                    self.options@ == merge_pairs(base_o, dv.take(pi as int)),
                    self.locations@ == merge_locs(base_l, dv.take(pi as int), fname),
                decreases np - pi,
            {
                let up = to_upper(self.cfg_files[fi].options[pi].0.as_str());
                let val = self.cfg_files[fi].options[pi].1.clone();
                let file_name = self.cfg_files[fi].filename.clone();
                proof {
                    assert(dv[pi as int] == self.cfg_files@[fi as int].options@[pi as int].deep_view());
                    assert(dv.take(pi as int + 1).drop_last() =~= dv.take(pi as int));
                    assert(dv.take(pi as int + 1).last() == dv[pi as int]);
                }
                self.options.insert(up.clone(), val);
                self.locations.insert(up, file_name);
                pi = pi + 1;
            }
            proof {
                assert(dv.take(np as int) =~= dv);
                assert(fv[fi as int] == self.cfg_files@[fi as int]@);
                assert(fv.take(fi as int + 1).drop_last() =~= fv.take(fi as int));
                assert(fv.take(fi as int + 1).last() == fv[fi as int]);
            }
            fi = fi + 1;
        }
        proof {
            assert(fv.take(nf as int) =~= fv);
        }
    }

    /// Build a resolver from already-collected parsed files, in search-path
    /// order.  Fails fatally when no directory yielded a file: the profile
    /// is then considered unconfigured.
    pub fn from_files(profile: String, path: String, cfg_files: Vec<CapoConfigurationFile>) -> (r:
        Result<CapoConfig, CapoError>)
        ensures
            match r {
                Ok(c) => {
                    &&& cfg_files@.len() > 0
                    &&& c.profile == profile
                    &&& c.path == path
                    &&& c.cfg_files == cfg_files
                    &&& c.options@ == merged_options(files_view(cfg_files@))
                    &&& c.locations@ == merged_locations(files_view(cfg_files@))
                    &&& c.wf()
                },
                Err(e) => cfg_files@.len() == 0 && e.status_code == 5,
            },
    {
        if cfg_files.len() == 0 {
            return Err(CapoError::path_error());
        }
        let mut config = CapoConfig {
            profile,
            path,
            options: StringMap::new(),
            locations: StringMap::new(),
            cfg_files,
        };
        config.load_merged_config();
        Ok(config)
    }

    /// Get the value of a CAPO property: the key is folded to upper case,
    /// then looked up in the merged options.
    pub fn get(&self, key: &str) -> (r: Option<String>)
        requires
            self.wf(),
        ensures
            r.deep_view() == spec_get(self.options@, key@),
    {
        let up = to_upper(key);
        self.options.get(up.as_str())
    }

    /// Get the location of a CAPO property: the bare filename of the file
    /// that last set it.
    pub fn get_location(&self, key: &str) -> (r: Option<String>)
        requires
            self.wf(),
        ensures
            r.deep_view() == spec_get(self.locations@, key@),
    {
        let up = to_upper(key);
        self.locations.get(up.as_str())
    }

    /// A snapshot of all the options in the CAPO config.
    pub fn get_options(&self) -> (r: StringMap)
        requires
            self.wf(),
        ensures
            r@ == self.options@,
            r.seq_view() == self.options.seq_view(),
            r.wf(),
    {
        self.options.snapshot()
    }

    /// A snapshot of all the locations in the CAPO config.
    pub fn get_locations(&self) -> (r: StringMap)
        requires
            self.wf(),
        ensures
            r@ == self.locations@,
            r.seq_view() == self.locations.seq_view(),
            r.wf(),
    {
        self.locations.snapshot()
    }

    /// Get the value of a CAPO property as a u128: absent when the key is
    /// unset and when the value does not denote an unsigned integer that
    /// fits.
    pub fn get_u128(&self, key: &str) -> (r: Option<u128>)
        requires
            self.wf(),
        ensures
            match r {
                Some(v) => spec_get_uint(self.options@, key@, u128::MAX as int) == Some(v as int),
                None => spec_get_uint(self.options@, key@, u128::MAX as int) is None,
            },
    {
        let val = match self.get(key) {
            Some(v) => v,
            None => {
                return None;
            },
        };
        let n = match parse_u128(val.as_str()) {
            Some(n) => n,
            None => {
                return None;
            },
        };
        Some(n)
    }

    /// Get the value of a CAPO property as a u64: absent when the key is
    /// unset and when the value does not denote an unsigned integer that
    /// fits.
    pub fn get_u64(&self, key: &str) -> (r: Option<u64>)
        requires
            self.wf(),
        ensures
            match r {
                Some(v) => spec_get_uint(self.options@, key@, u64::MAX as int) == Some(v as int),
                None => spec_get_uint(self.options@, key@, u64::MAX as int) is None,
            },
    {
        let val = match self.get(key) {
            Some(v) => v,
            None => {
                return None;
            },
        };
        let n = match parse_u128(val.as_str()) {
            Some(n) => n,
            None => {
                return None;
            },
        };
        if n <= u64::MAX as u128 {
            Some(n as u64)
        } else {
            None
        }
    }

    /// Get the value of a CAPO property as a u32: absent when the key is
    /// unset and when the value does not denote an unsigned integer that
    /// fits.
    pub fn get_u32(&self, key: &str) -> (r: Option<u32>)
        requires
            self.wf(),
        ensures
            match r {
                Some(v) => spec_get_uint(self.options@, key@, u32::MAX as int) == Some(v as int),
                None => spec_get_uint(self.options@, key@, u32::MAX as int) is None,
            },
    {
        let val = match self.get(key) {
            Some(v) => v,
            None => {
                return None;
            },
        };
        let n = match parse_u128(val.as_str()) {
            Some(n) => n,
            None => {
                return None;
            },
        };
        if n <= u32::MAX as u128 {
            Some(n as u32)
        } else {
            None
        }
    }

    /// Get the value of a CAPO property as a u16: absent when the key is
    /// unset and when the value does not denote an unsigned integer that
    /// fits.
    pub fn get_u16(&self, key: &str) -> (r: Option<u16>)
        requires
            self.wf(),
        ensures
            match r {
                Some(v) => spec_get_uint(self.options@, key@, u16::MAX as int) == Some(v as int),
                None => spec_get_uint(self.options@, key@, u16::MAX as int) is None,
            },
    {
        let val = match self.get(key) {
            Some(v) => v,
            None => {
                return None;
            },
        };
        let n = match parse_u128(val.as_str()) {
            Some(n) => n,
            None => {
                return None;
            },
        };
        if n <= u16::MAX as u128 {
            Some(n as u16)
        } else {
            None
        }
    }

    /// Get the value of a CAPO property as a u8: absent when the key is
    /// unset and when the value does not denote an unsigned integer that
    /// fits.
    pub fn get_u8(&self, key: &str) -> (r: Option<u8>)
        requires
            self.wf(),
        ensures
            match r {
                Some(v) => spec_get_uint(self.options@, key@, u8::MAX as int) == Some(v as int),
                None => spec_get_uint(self.options@, key@, u8::MAX as int) is None,
            },
    {
        let val = match self.get(key) {
            Some(v) => v,
            None => {
                return None;
            },
        };
        let n = match parse_u128(val.as_str()) {
            Some(n) => n,
            None => {
                return None;
            },
        };
        if n <= u8::MAX as u128 {
            Some(n as u8)
        } else {
            None
        }
    }

    /// Get the value of a CAPO property as a usize: absent when the key is
    /// unset and when the value does not denote an unsigned integer that
    /// fits.
    pub fn get_usize(&self, key: &str) -> (r: Option<usize>)
        requires
            self.wf(),
        ensures
            match r {
                Some(v) => spec_get_uint(self.options@, key@, usize::MAX as int) == Some(v as int),
                None => spec_get_uint(self.options@, key@, usize::MAX as int) is None,
            },
    {
        let val = match self.get(key) {
            Some(v) => v,
            None => {
                return None;
            },
        };
        let n = match parse_u128(val.as_str()) {
            Some(n) => n,
            None => {
                return None;
            },
        };
        if n <= usize::MAX as u128 {
            Some(n as usize)
        } else {
            None
        }
    }

    /// Get the value of a CAPO property as an i128: absent when the key is
    /// unset and when the value does not denote a signed integer that fits.
    pub fn get_i128(&self, key: &str) -> (r: Option<i128>)
        requires
            self.wf(),
        ensures
            match r {
                Some(v) => spec_get_sint(self.options@, key@, i128::MIN as int, i128::MAX as int)
                    == Some(v as int),
                None => spec_get_sint(self.options@, key@, i128::MIN as int, i128::MAX as int) is None,
            },
    {
        let val = match self.get(key) {
            Some(v) => v,
            None => {
                return None;
            },
        };
        let n = match parse_i128(val.as_str()) {
            Some(n) => n,
            None => {
                return None;
            },
        };
        Some(n)
    }

    /// Get the value of a CAPO property as an i64: absent when the key is
    /// unset and when the value does not denote a signed integer that fits.
    pub fn get_i64(&self, key: &str) -> (r: Option<i64>)
        requires
            self.wf(),
        ensures
            match r {
                Some(v) => spec_get_sint(self.options@, key@, i64::MIN as int, i64::MAX as int)
                    == Some(v as int),
                None => spec_get_sint(self.options@, key@, i64::MIN as int, i64::MAX as int) is None,
            },
    {
        let val = match self.get(key) {
            Some(v) => v,
            None => {
                return None;
            },
        };
        let n = match parse_i128(val.as_str()) {
            Some(n) => n,
            None => {
                return None;
            },
        };
        if i64::MIN as i128 <= n && n <= i64::MAX as i128 {
            Some(n as i64)
        } else {
            None
        }
    }

    /// Get the value of a CAPO property as an i32: absent when the key is
    /// unset and when the value does not denote a signed integer that fits.
    pub fn get_i32(&self, key: &str) -> (r: Option<i32>)
        requires
            self.wf(),
        ensures
            match r {
                Some(v) => spec_get_sint(self.options@, key@, i32::MIN as int, i32::MAX as int)
                    == Some(v as int),
                None => spec_get_sint(self.options@, key@, i32::MIN as int, i32::MAX as int) is None,
            },
    {
        let val = match self.get(key) {
            Some(v) => v,
            None => {
                return None;
            },
        };
        let n = match parse_i128(val.as_str()) {
            Some(n) => n,
            None => {
                return None;
            },
        };
        if i32::MIN as i128 <= n && n <= i32::MAX as i128 {
            Some(n as i32)
        } else {
            None
        }
    }

    /// Get the value of a CAPO property as an i16: absent when the key is
    /// unset and when the value does not denote a signed integer that fits.
    pub fn get_i16(&self, key: &str) -> (r: Option<i16>)
        requires
            self.wf(),
        ensures
            match r {
                Some(v) => spec_get_sint(self.options@, key@, i16::MIN as int, i16::MAX as int)
                    == Some(v as int),
                None => spec_get_sint(self.options@, key@, i16::MIN as int, i16::MAX as int) is None,
            },
    {
        let val = match self.get(key) {
            Some(v) => v,
            None => {
                return None;
            },
        };
        let n = match parse_i128(val.as_str()) {
            Some(n) => n,
            None => {
                return None;
            },
        };
        if i16::MIN as i128 <= n && n <= i16::MAX as i128 {
            Some(n as i16)
        } else {
            None
        }
    }

    /// Get the value of a CAPO property as an i8: absent when the key is
    /// unset and when the value does not denote a signed integer that fits.
    pub fn get_i8(&self, key: &str) -> (r: Option<i8>)
        requires
            self.wf(),
        ensures
            match r {
                Some(v) => spec_get_sint(self.options@, key@, i8::MIN as int, i8::MAX as int)
                    == Some(v as int),
                None => spec_get_sint(self.options@, key@, i8::MIN as int, i8::MAX as int) is None,
            },
    {
        let val = match self.get(key) {
            Some(v) => v,
            None => {
                return None;
            },
        };
        let n = match parse_i128(val.as_str()) {
            Some(n) => n,
            None => {
                return None;
            },
        };
        if i8::MIN as i128 <= n && n <= i8::MAX as i128 {
            Some(n as i8)
        } else {
            None
        }
    }

    /// Get the value of a CAPO property as an isize: absent when the key is
    /// unset and when the value does not denote a signed integer that fits.
    pub fn get_isize(&self, key: &str) -> (r: Option<isize>)
        requires
            self.wf(),
        ensures
            match r {
                Some(v) => spec_get_sint(self.options@, key@, isize::MIN as int, isize::MAX as int)
                    == Some(v as int),
                None => spec_get_sint(self.options@, key@, isize::MIN as int, isize::MAX as int) is None,
            },
    {
        let val = match self.get(key) {
            Some(v) => v,
            None => {
                return None;
            },
        };
        let n = match parse_i128(val.as_str()) {
            Some(n) => n,
            None => {
                return None;
            },
        };
        if isize::MIN as i128 <= n && n <= isize::MAX as i128 {
            Some(n as isize)
        } else {
            None
        }
    }

    /// Get the value of a CAPO property as a bool: `yes` and `true` are
    /// true, `no` and `false` are false, case-insensitively; anything else
    /// is as absent as a missing key.
    pub fn get_bool(&self, key: &str) -> (r: Option<bool>)
        requires
            self.wf(),
        ensures
            match r {
                Some(b) => spec_get_bool(self.options@, key@) == Some(b),
                None => spec_get_bool(self.options@, key@) is None,
            },
    {
        let val = match self.get(key) {
            Some(v) => v,
            None => {
                return None;
            },
        };
        let l = to_lower(val.as_str());
        if l == "yes".to_owned() || l == "true".to_owned() {
            Some(true)
        } else if l == "no".to_owned() || l == "false".to_owned() {
            Some(false)
        } else {
            None
        }
    }
}

} // verus!
