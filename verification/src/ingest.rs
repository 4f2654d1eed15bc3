//! Ingestion SQL generation.
//!
//! An uploaded file's extension selects a format; each format
//! carries default reader parameters; caller-supplied parameters
//! override the defaults key by key; and the resolved set is
//! rendered into the engine's `read_csv` / `read_parquet` /
//! `read_json` call.

use vstd::prelude::*;

use crate::error::Error;
use crate::strutil::last_index_of;
use crate::strutil::lemma_last_index_character;
use crate::strutil::spec_join;
use crate::strutil::spec_last_index_of;
use crate::strutil::str_equal;

verus! {

/// An ingestion parameter list: keys with their values, in
/// insertion order, each key at most once.
pub type Params = Vec<(String, String)>;

/// Mathematical content of a parameter list.
pub open spec fn params_view(s: Seq<(String, String)>) -> Seq<(Seq<char>, Seq<char>)> {
    s.map_values(|t: (String, String)| (t.0@, t.1@))
}

/// The file formats the engine can ingest.
#[derive(Debug, Clone, PartialEq, Eq, Structural)]
pub enum FileFormat {
    Csv,
    Tsv,
    Txt,
    Parquet,
    Json,
}

/// ASCII lower-casing of one character.
pub open spec fn spec_lower_char(c: char) -> char {
    if 65 <= c as u32 <= 90 {
        ((c as u32) + 32) as char
    } else {
        c
    }
}

/// ASCII lower-casing of a string.
pub open spec fn spec_lower(s: Seq<char>) -> Seq<char> {
    s.map_values(|c: char| spec_lower_char(c))
}

/// The format an extension selects, compared without regard to
/// ASCII case; `None` for an unrecognized extension.
pub open spec fn spec_format_of(ext: Seq<char>) -> Option<FileFormat> {
    if spec_lower(ext) == "csv"@ {
        Some(FileFormat::Csv)
    } else if spec_lower(ext) == "tsv"@ {
        Some(FileFormat::Tsv)
    } else if spec_lower(ext) == "txt"@ {
        Some(FileFormat::Txt)
    } else if spec_lower(ext) == "parquet"@ {
        Some(FileFormat::Parquet)
    } else if spec_lower(ext) == "json"@ {
        Some(FileFormat::Json)
    } else {
        None
    }
}

/// The default reader parameters of a format: text-based formats
/// auto-detect types over a 1000-row sample, delimited formats
/// expect a header row, tab-separated files force a tab delimiter,
/// and multi-file column sets are unioned by name for columnar
/// files.
pub open spec fn spec_default_params(f: FileFormat) -> Seq<(Seq<char>, Seq<char>)> {
    match f {
        FileFormat::Csv => seq![
            ("auto_detect"@, "true"@),
            ("sample_size"@, "1000"@),
            ("header"@, "true"@),
        ],
        FileFormat::Tsv => seq![
            ("auto_detect"@, "true"@),
            ("sample_size"@, "1000"@),
            ("header"@, "true"@),
            ("delimiter"@, "\t"@),
        ],
        FileFormat::Txt => seq![("auto_detect"@, "true"@), ("sample_size"@, "1000"@)],
        FileFormat::Json => seq![("auto_detect"@, "true"@), ("sample_size"@, "1000"@)],
        FileFormat::Parquet => seq![("union_by_name"@, "true"@)],
    }
}

/// Index of the first entry with key `k`, or `-1` when none.
pub open spec fn spec_key_index(ps: Seq<(Seq<char>, Seq<char>)>, k: Seq<char>) -> int
    decreases ps.len(),
{
    if ps.len() == 0 {
        -1
    } else if ps[0].0 == k {
        0
    } else {
        let r = spec_key_index(ps.drop_first(), k);
        if r == -1 {
            -1
        } else {
            r + 1
        }
    }
}

pub proof fn lemma_key_index_character(ps: Seq<(Seq<char>, Seq<char>)>, k: Seq<char>)
    ensures
        -1 <= spec_key_index(ps, k) < ps.len(),
        spec_key_index(ps, k) >= 0 ==> ps[spec_key_index(ps, k)].0 == k,
        forall|j: int| 0 <= j < spec_key_index(ps, k) ==> (#[trigger] ps[j]).0 != k,
        spec_key_index(ps, k) == -1 ==> forall|j: int| 0 <= j < ps.len() ==> (#[trigger] ps[j]).0
            != k,
    decreases ps.len(),
{
    if ps.len() > 0 && ps[0].0 != k {
        lemma_key_index_character(ps.drop_first(), k);
        assert(forall|j: int| 0 < j < ps.len() ==> #[trigger] ps[j] == ps.drop_first()[j - 1]);
    }
}

/// One parameter written into a list: the first entry with its key
/// is replaced, or the pair is appended when the key is new.
pub open spec fn spec_upsert(
    ps: Seq<(Seq<char>, Seq<char>)>,
    k: Seq<char>,
    v: Seq<char>,
) -> Seq<(Seq<char>, Seq<char>)> {
    let i = spec_key_index(ps, k);
    if i >= 0 {
        ps.update(i, (k, v))
    } else {
        ps.push((k, v))
    }
}

/// Caller-supplied parameters written over the defaults key by key,
/// in the order given.
pub open spec fn spec_override(
    defaults: Seq<(Seq<char>, Seq<char>)>,
    overrides: Seq<(Seq<char>, Seq<char>)>,
) -> Seq<(Seq<char>, Seq<char>)>
    decreases overrides.len(),
{
    if overrides.len() == 0 {
        defaults
    } else {
        spec_override(
            spec_upsert(defaults, overrides[0].0, overrides[0].1),
            overrides.drop_first(),
        )
    }
}

/// One parameter rendered for the reader call.
pub open spec fn spec_kv(p: (Seq<char>, Seq<char>)) -> Seq<char> {
    p.0 + " = '"@ + p.1 + "'"@
}

/// The whole parameter list rendered: `key = 'value'` pairs joined
/// by commas.
pub open spec fn spec_render_params(ps: Seq<(Seq<char>, Seq<char>)>) -> Seq<char> {
    spec_join(ps.map_values(|p: (Seq<char>, Seq<char>)| spec_kv(p)), ", "@)
}

/// A reader call over a file path and parameters. Only the CSV
/// reader renders a bare call for an empty parameter set.
pub open spec fn spec_read_call(
    name: Seq<char>,
    path: Seq<char>,
    ps: Seq<(Seq<char>, Seq<char>)>,
    bare_when_empty: bool,
) -> Seq<char> {
    if ps.len() == 0 && bare_when_empty {
        name + "('"@ + path + "')"@
    } else {
        name + "('"@ + path + "', "@ + spec_render_params(ps) + ")"@
    }
}

/// The reader call a format uses: delimited and plain text files go
/// through the CSV reader.
pub open spec fn spec_reader_for(
    f: FileFormat,
    path: Seq<char>,
    ps: Seq<(Seq<char>, Seq<char>)>,
) -> Seq<char> {
    match f {
        FileFormat::Csv => spec_read_call("read_csv"@, path, ps, true),
        FileFormat::Tsv => spec_read_call("read_csv"@, path, ps, true),
        FileFormat::Txt => spec_read_call("read_csv"@, path, ps, true),
        FileFormat::Parquet => spec_read_call("read_parquet"@, path, ps, false),
        FileFormat::Json => spec_read_call("read_json"@, path, ps, false),
    }
}

/// ASCII-case-insensitive comparison of `s` against `kw`.
fn matches_lower(s: &str, kw: &str) -> (r: bool)
    ensures
        r == (spec_lower(s@) == kw@),
{
    let ns = s.unicode_len();
    let nk = kw.unicode_len();
    if ns != nk {
        assert(spec_lower(s@).len() == s@.len());
        return false;
    }
    let mut i: usize = 0;
    while i < ns
        invariant
            ns == s@.len(),
            ns == kw@.len(),
            0 <= i <= ns,
            forall|j: int| 0 <= j < i ==> spec_lower_char(s@[j]) == kw@[j],
        decreases ns - i,
    {
        let cu = s.get_char(i) as u32;
        let lu = if 65 <= cu && cu <= 90 {
            cu + 32
        } else {
            cu
        };
        let ku = kw.get_char(i) as u32;
        if lu != ku {
            proof {
                assert(spec_lower_char(s@[i as int]) as u32 == lu);
                assert(spec_lower(s@)[i as int] == spec_lower_char(s@[i as int]));
                assert(spec_lower(s@) != kw@);
            }
            return false;
        }
        proof {
            assert(spec_lower_char(s@[i as int]) as u32 == ku);
            assert(spec_lower_char(s@[i as int]) == kw@[i as int]);
        }
        i = i + 1;
    }
    proof {
        assert(spec_lower(s@) =~= kw@);
    }
    true
}

fn string_lit(s: &str) -> (r: String)
    ensures
        r@ == s@,
{
    String::from_str(s)
}

impl FileFormat {
    /// Selects the format for a file extension, without regard to
    /// ASCII case; an unrecognized extension is rejected with an
    /// `InvalidFormat` error carrying it.
    pub fn from_extension(extension: &str) -> (r: Result<FileFormat, Error>)
        ensures
            r is Ok <==> spec_format_of(extension@) is Some,
            r matches Ok(f) ==> spec_format_of(extension@) == Some(f),
            r matches Err(e) ==> e matches Error::InvalidFormat { format } && format@
                == extension@,
    {
        if matches_lower(extension, "csv") {
            Ok(FileFormat::Csv)
        } else if matches_lower(extension, "tsv") {
            Ok(FileFormat::Tsv)
        } else if matches_lower(extension, "txt") {
            Ok(FileFormat::Txt)
        } else if matches_lower(extension, "parquet") {
            Ok(FileFormat::Parquet)
        } else if matches_lower(extension, "json") {
            Ok(FileFormat::Json)
        } else {
            Err(Error::InvalidFormat { format: String::from_str(extension) })
        }
    }

    /// The default reader parameters of this format.
    pub fn default_params(&self) -> (r: Params)
        ensures
            params_view(r@) == spec_default_params(*self),
    {
        let mut r: Params = Vec::new();
        match self {
            FileFormat::Csv => {
                r.push((string_lit("auto_detect"), string_lit("true")));
                r.push((string_lit("sample_size"), string_lit("1000")));
                r.push((string_lit("header"), string_lit("true")));
            },
            FileFormat::Tsv => {
                r.push((string_lit("auto_detect"), string_lit("true")));
                r.push((string_lit("sample_size"), string_lit("1000")));
                r.push((string_lit("header"), string_lit("true")));
                r.push((string_lit("delimiter"), string_lit("\t")));
            },
            FileFormat::Txt => {
                r.push((string_lit("auto_detect"), string_lit("true")));
                r.push((string_lit("sample_size"), string_lit("1000")));
            },
            FileFormat::Json => {
                r.push((string_lit("auto_detect"), string_lit("true")));
                r.push((string_lit("sample_size"), string_lit("1000")));
            },
            FileFormat::Parquet => {
                r.push((string_lit("union_by_name"), string_lit("true")));
            },
        }
        assert(params_view(r@) =~= spec_default_params(*self));
        r
    }
}

/// Writes one parameter into the list: replaces the first entry
/// with the same key, or appends.
fn upsert_param(params: &mut Params, key: String, value: String)
    ensures
        params_view(final(params)@) == spec_upsert(params_view(old(params)@), key@, value@),
{
    let ghost ps = params_view(params@);
    proof {
        lemma_key_index_character(ps, key@);
    }
    let n = params.len();
    let mut i: usize = 0;
    while i < n
        invariant
            n == params@.len(),
            0 <= i <= n,
            params@ == old(params)@,
            ps == params_view(params@),
            forall|j: int| 0 <= j < i ==> (#[trigger] ps[j]).0 != key@,
        decreases n - i,
    {
        if str_equal(params[i].0.as_str(), key.as_str()) {
            proof {
                assert(ps[i as int].0 == key@);
                assert(spec_key_index(ps, key@) == i) by {
                    lemma_key_index_character(ps, key@);
                    if spec_key_index(ps, key@) > i {
                        assert((ps[i as int]).0 != key@);
                    }
                }
            }
            let ghost before = params@;
            params[i] = (key, value);
            proof {
                assert(params_view(params@) =~= spec_upsert(ps, key@, value@));
            }
            return ;
        }
        i = i + 1;
    }
    proof {
        assert(spec_key_index(ps, key@) == -1) by {
            lemma_key_index_character(ps, key@);
            if spec_key_index(ps, key@) >= 0 {
                assert((ps[spec_key_index(ps, key@)]).0 == key@);
            }
        }
    }
    params.push((key, value));
    assert(params_view(params@) =~= spec_upsert(ps, key@, value@));
}

/// Caller-supplied parameters written over the defaults key by key;
/// the defaults are never replaced wholesale.
pub fn override_params(defaults: Params, overrides: &Params) -> (r: Params)
    ensures
        params_view(r@) == spec_override(params_view(defaults@), params_view(overrides@)),
{
    let ghost d = params_view(defaults@);
    let ghost o = params_view(overrides@);
    let mut r = defaults;
    let n = overrides.len();
    let mut i: usize = 0;
    proof {
        assert(o.skip(0) =~= o);
    }
    while i < n
        invariant
            n == overrides@.len(),
            0 <= i <= n,
            o == params_view(overrides@),
            spec_override(d, o) == spec_override(params_view(r@), o.skip(i as int)),
        decreases n - i,
    {
        let key = params_ref_key(overrides, i);
        let value = params_ref_value(overrides, i);
        let ghost cur = params_view(r@);
        upsert_param(&mut r, key, value);
        proof {
            assert(o.skip(i as int)[0] == o[i as int]);
            assert(o.skip(i as int).drop_first() =~= o.skip(i + 1));
            assert(o[i as int].0 == overrides@[i as int].0@);
            assert(spec_override(cur, o.skip(i as int)) == spec_override(
                spec_upsert(cur, o[i as int].0, o[i as int].1),
                o.skip(i + 1),
            ));
        }
        i = i + 1;
    }
    proof {
        assert(o.skip(n as int) =~= Seq::<(Seq<char>, Seq<char>)>::empty());
    }
    r
}

fn params_ref_key(params: &Params, i: usize) -> (r: String)
    requires
        i < params@.len(),
    ensures
        r@ == params_view(params@)[i as int].0,
{
    params[i].0.clone()
}

fn params_ref_value(params: &Params, i: usize) -> (r: String)
    requires
        i < params@.len(),
    ensures
        r@ == params_view(params@)[i as int].1,
{
    params[i].1.clone()
}

/// Renders the parameter list as `key = 'value'` pairs joined by
/// commas.
fn render_params(params: &Params) -> (r: String)
    ensures
        r@ == spec_render_params(params_view(params@)),
{
    let ghost parts = params_view(params@).map_values(
        |p: (Seq<char>, Seq<char>)| spec_kv(p),
    );
    let mut joined = string_lit("");
    let n = params.len();
    let mut i: usize = 0;
    proof {
        reveal_strlit("");
        assert(joined@ =~= Seq::<char>::empty());
        assert(parts.take(0) =~= Seq::<Seq<char>>::empty());
    }
    while i < n
        invariant
            n == params@.len(),
            0 <= i <= n,
            parts == params_view(params@).map_values(
                |p: (Seq<char>, Seq<char>)| spec_kv(p),
            ),
            joined@ == spec_join(parts.take(i as int), ", "@),
        decreases n - i,
    {
        if i > 0 {
            joined.append(", ");
        }
        joined.append(params[i].0.as_str());
        joined.append(" = '");
        joined.append(params[i].1.as_str());
        joined.append("'");
        proof {
            assert(parts.take(i + 1).drop_last() =~= parts.take(i as int));
            assert(parts.take(i + 1).last() == parts[i as int]);
            assert(parts[i as int] == spec_kv(params_view(params@)[i as int]));
            if i == 0 {
                assert(joined@ =~= spec_join(parts.take(1), ", "@));
            } else {
                assert(joined@ =~= spec_join(parts.take(i + 1), ", "@));
            }
        }
        i = i + 1;
    }
    proof {
        assert(parts.take(n as int) =~= parts);
    }
    joined
}

/// One rendered reader call.
fn read_call(name: &str, path: &str, params: &Params, bare_when_empty: bool) -> (r: String)
    ensures
        r@ == spec_read_call(name@, path@, params_view(params@), bare_when_empty),
{
    let mut r = string_lit(name);
    if params.len() == 0 && bare_when_empty {
        r.append("('");
        r.append(path);
        r.append("')");
        return r;
    }
    r.append("('");
    r.append(path);
    r.append("', ");
    let rendered = render_params(params);
    r.append(rendered.as_str());
    r.append(")");
    r
}

/// The CSV reader call; an empty parameter set renders a bare call.
pub fn generate_read_csv_statement(path: &str, params: &Params) -> (r: String)
    ensures
        r@ == spec_read_call("read_csv"@, path@, params_view(params@), true),
{
    read_call("read_csv", path, params, true)
}

/// The Parquet reader call.
pub fn generate_read_parquet_statement(path: &str, params: &Params) -> (r: String)
    ensures
        r@ == spec_read_call("read_parquet"@, path@, params_view(params@), false),
{
    read_call("read_parquet", path, params, false)
}

/// The JSON reader call.
pub fn generate_read_json_statement(path: &str, params: &Params) -> (r: String)
    ensures
        r@ == spec_read_call("read_json"@, path@, params_view(params@), false),
{
    read_call("read_json", path, params, false)
}

/// What `source_reader` returns: a reader call selected by the
/// exact, already-lower-case format token.
pub open spec fn spec_source_reader(
    path: Seq<char>,
    format: Seq<char>,
    ps: Seq<(Seq<char>, Seq<char>)>,
) -> Option<Seq<char>> {
    if format == "csv"@ || format == "tsv"@ || format == "txt"@ {
        Some(spec_read_call("read_csv"@, path, ps, true))
    } else if format == "parquet"@ {
        Some(spec_read_call("read_parquet"@, path, ps, false))
    } else if format == "json"@ {
        Some(spec_read_call("read_json"@, path, ps, false))
    } else {
        None
    }
}

/// Renders the reader call for a format token; an unrecognized
/// token is rejected with an `InvalidFormat` error carrying it.
pub fn source_reader(path: &str, format: &str, params: &Params) -> (r: Result<String, Error>)
    ensures
        r is Ok <==> spec_source_reader(path@, format@, params_view(params@)) is Some,
        r matches Ok(s) ==> Some(s@) == spec_source_reader(path@, format@, params_view(params@)),
        r matches Err(e) ==> e matches Error::InvalidFormat { format: f } && f@ == format@,
{
    if str_equal(format, "csv") || str_equal(format, "tsv") || str_equal(format, "txt") {
        Ok(generate_read_csv_statement(path, params))
    } else if str_equal(format, "parquet") {
        Ok(generate_read_parquet_statement(path, params))
    } else if str_equal(format, "json") {
        Ok(generate_read_json_statement(path, params))
    } else {
        Err(Error::InvalidFormat { format: String::from_str(format) })
    }
}

/// The extension of a path: what follows the last dot of the final
/// path component, provided that dot is neither its first character
/// nor absent.
pub open spec fn spec_extension_of(path: Seq<char>) -> Option<Seq<char>> {
    let fname = path.skip(spec_last_index_of(path, '/') + 1);
    let d = spec_last_index_of(fname, '.');
    if d <= 0 {
        None
    } else {
        Some(fname.skip(d + 1))
    }
}

/// The SQL `generate_sql` produces for a path and overrides: a
/// `select` over the reader call of the format the extension
/// selects, with the caller's parameters written over the format's
/// defaults; `None` when the extension is missing or unrecognized.
pub open spec fn spec_ingest_sql(
    path: Seq<char>,
    overrides: Seq<(Seq<char>, Seq<char>)>,
) -> Option<Seq<char>> {
    match spec_extension_of(path) {
        None => None,
        Some(ext) => match spec_format_of(ext) {
            None => None,
            Some(f) => Some(
                "select * from "@ + spec_reader_for(
                    f,
                    path,
                    spec_override(spec_default_params(f), overrides),
                ),
            ),
        },
    }
}

/// Validation and ingestion-SQL generation for uploaded files.
#[derive(Debug, Clone)]
pub struct FileSystem {
    /// Greatest accepted file size in MiB, when set.
    max_file_size: Option<usize>,
}

impl View for FileSystem {
    type V = Option<usize>;

    closed spec fn view(&self) -> Option<usize> {
        self.max_file_size
    }
}

impl Default for FileSystem {
    /// A source with no size bound.
    fn default() -> (r: FileSystem)
        ensures
            r@ is None,
    {
        FileSystem { max_file_size: None }
    }
}

impl FileSystem {
    /// A source with no size bound.
    pub fn new() -> (r: FileSystem)
        ensures
            r@ is None,
    {
        FileSystem { max_file_size: None }
    }

    /// Bounds accepted files to `max_file_size` MiB.
    pub fn with_max_file_size(self, max_file_size: usize) -> (r: FileSystem)
        ensures
            r@ == Some(max_file_size),
    {
        FileSystem { max_file_size: Some(max_file_size) }
    }

    /// Accepts a file of `file_len` bytes: it must be non-empty and,
    /// when a bound is set, at most the bound. A rejection carries
    /// the offending path.
    pub fn validate(&self, file_len: u64, file_path: &str) -> (r: Result<(), Error>)
        ensures
            r is Ok <==> file_len > 0 && (self@ matches Some(m) ==> file_len <= m * 1048576),
            r matches Err(e) ==> e matches Error::FileSystem { path, .. } && path@ == file_path@,
    {
        if file_len == 0 {
            return Err(Error::FileSystem {
                path: String::from_str(file_path),
                message: string_lit("empty file"),
            });
        }
        if let Some(max_size) = self.max_file_size {
            let max_bytes: u128 = (max_size as u128) * 1048576;
            if (file_len as u128) > max_bytes {
                let mut m = string_lit("file size exceeds limit of ");
                let d = crate::strutil::u64_to_dec_string(max_size as u64);
                m.append(d.as_str());
                m.append(" MB");
                return Err(Error::FileSystem { path: String::from_str(file_path), message: m });
            }
        }
        Ok(())
    }

    /// Builds the full ingestion statement for a file: resolves the
    /// format from the extension, merges the caller's parameters
    /// over the format's defaults, and wraps the reader call in a
    /// `select`. A missing extension is a filesystem error carrying
    /// the path; an unrecognized one is an `InvalidFormat` error.
    pub fn generate_sql(&self, file_path: &str, ingestion_params: &Params) -> (r: Result<
        String,
        Error,
    >)
        ensures
            r is Ok <==> spec_ingest_sql(file_path@, params_view(ingestion_params@)) is Some,
            r matches Ok(s) ==> Some(s@) == spec_ingest_sql(
                file_path@,
                params_view(ingestion_params@),
            ),
            r matches Err(e) ==> {
                ||| {
                    &&& spec_extension_of(file_path@) is None
                    &&& e matches Error::FileSystem { path, .. }
                    &&& path@ == file_path@
                }
                ||| {
                    &&& spec_extension_of(file_path@) matches Some(ext)
                    &&& spec_format_of(ext) is None
                    &&& e matches Error::InvalidFormat { format }
                    &&& format@ == ext
                }
            },
    {
        let extension = match extension_of(file_path) {
            Some(e) => e,
            None => {
                return Err(Error::FileSystem {
                    path: String::from_str(file_path),
                    message: string_lit("invalid extension"),
                });
            },
        };
        let format = match FileFormat::from_extension(extension) {
            Ok(f) => f,
            Err(e) => {
                return Err(e);
            },
        };
        let defaults = format.default_params();
        let resolved = override_params(defaults, ingestion_params);
        let call = match format {
            FileFormat::Csv => generate_read_csv_statement(file_path, &resolved),
            FileFormat::Tsv => generate_read_csv_statement(file_path, &resolved),
            FileFormat::Txt => generate_read_csv_statement(file_path, &resolved),
            FileFormat::Parquet => generate_read_parquet_statement(file_path, &resolved),
            FileFormat::Json => generate_read_json_statement(file_path, &resolved),
        };
        let mut sql = string_lit("select * from ");
        sql.append(call.as_str());
        Ok(sql)
    }
}

/// The extension of a path, as `spec_extension_of` gives it.
pub fn extension_of(path: &str) -> (r: Option<&str>)
    ensures
        match r {
            Some(e) => spec_extension_of(path@) == Some(e@),
            None => spec_extension_of(path@) is None,
        },
{
    let n = path.unicode_len();
    let start = match last_index_of(path, '/') {
        Some(k) => k + 1,
        None => 0,
    };
    proof {
        lemma_last_index_character(path@, '/');
    }
    let fname = path.substring_char(start, n);
    assert(fname@ =~= path@.skip(spec_last_index_of(path@, '/') + 1));
    let fn_len = fname.unicode_len();
    match last_index_of(fname, '.') {
        Some(d) => {
            if d == 0 {
                None
            } else {
                proof {
                    lemma_last_index_character(fname@, '.');
                }
                let ext = fname.substring_char(d + 1, fn_len);
                assert(ext@ =~= fname@.skip(spec_last_index_of(fname@, '.') + 1));
                Some(ext)
            }
        },
        None => None,
    }
}

} // verus!
