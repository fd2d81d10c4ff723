//! File-format selection and the reader and writer configuration types.
//!
//! Files carry the compound extension `<basename>.ecoord.<format>[.<compression>]`.
//! The string logic — recognizing format and compression tokens and
//! enumerating the permitted file names of a basename — is proved here; the
//! reading and writing of bytes stays with the caller.

use vstd::prelude::*;
use vstd::string::StringExecFns;
use crate::channel_info::ChannelId;
use crate::frames::FrameId;

verus! {

/// The default level for dictionary compression.
pub const DEFAULT_COMPRESSION_LEVEL: i32 = 10;

/// The text a file name carries between the basename and the format token.
pub fn ecoord_extension_token() -> (r: &'static str)
    ensures
        r@ == "ecoord"@,
{
    "ecoord"
}

/// What `str::to_lowercase` returns: a function of the characters alone.
pub uninterp spec fn lower_of(s: Seq<char>) -> Seq<char>;

/// Relies on str::to_lowercase: the lowercase mapping of the text, a function
/// of the characters alone. A text of ASCII lowercase letters is already
/// lowercase, so it maps to itself.
#[verifier::external_body]
fn lowercase(s: &str) -> (r: String)
    ensures
        r@ == lower_of(s@),
        (forall|i: int| 0 <= i < s@.len() ==> 97 <= (#[trigger] s@[i]) as u32 <= 122) ==> r@ == s@,
{
    s.to_lowercase()
}

/// The serialization format of a persisted document.
#[derive(Debug, Clone, Copy, PartialEq, Eq, Structural)]
pub enum Format {
    Json,
    Csv,
}

impl Default for Format {
    fn default() -> (r: Format)
        ensures
            r == Format::Json,
    {
        Format::Json
    }
}

impl Format {
    /// Recognizes a format token, ignoring case; each format's own token is
    /// always recognized, so writing and re-reading a token round-trips.
    pub fn from_str(s: &str) -> (r: Option<Format>)
        ensures
            r == Some(Format::Json) <==> lower_of(s@) == "json"@,
            r == Some(Format::Csv) <==> lower_of(s@) == "csv"@,
            r is None <==> lower_of(s@) != "json"@ && lower_of(s@) != "csv"@,
            s@ == "json"@ ==> r == Some(Format::Json),
            s@ == "csv"@ ==> r == Some(Format::Csv),
    {
        let lowered = lowercase(s);
        proof {
            reveal_strlit("json");
            reveal_strlit("csv");
            assert("json"@.len() == 4);
            assert("csv"@.len() == 3);
            assert("json"@ != "csv"@);
            if s@ == "json"@ || s@ == "csv"@ {
                assert forall|i: int| 0 <= i < s@.len() implies 97 <= (#[trigger] s@[i]) as u32
                    <= 122 by {
                    assert('j' as u32 == 106 && 'o' as u32 == 111 && 's' as u32 == 115 && 'n' as u32
                        == 110 && 'c' as u32 == 99 && 'v' as u32 == 118);
                }
            }
        }
        if lowered == String::from_str("json") {
            Some(Format::Json)
        } else if lowered == String::from_str("csv") {
            Some(Format::Csv)
        } else {
            None
        }
    }

    /// The format's token.
    pub fn as_str(&self) -> (r: &'static str)
        ensures
            *self == Format::Json ==> r@ == "json"@,
            *self == Format::Csv ==> r@ == "csv"@,
    {
        match self {
            Format::Json => "json",
            Format::Csv => "csv",
        }
    }

    /// Every format, in a fixed order.
    pub fn all() -> (r: Vec<Format>)
        ensures
            r@ =~= seq![Format::Json, Format::Csv],
    {
        let mut out: Vec<Format> = Vec::new();
        out.push(Format::Json);
        out.push(Format::Csv);
        out
    }
}

/// The compression wrapped around a persisted document.
#[derive(Debug, Clone, Copy, PartialEq, Eq, Structural)]
pub enum Compression {
    Uncompressed,
    Zstd(i32),
}

impl Default for Compression {
    fn default() -> (r: Compression)
        ensures
            r == Compression::Uncompressed,
    {
        Compression::Uncompressed
    }
}

impl Compression {
    /// The compression's file-name token, when it carries one.
    pub fn as_str(&self) -> (r: Option<&'static str>)
        ensures
            *self == Compression::Uncompressed <==> r is None,
            r matches Some(s) ==> s@ == "zst"@,
    {
        match self {
            Compression::Uncompressed => None,
            Compression::Zstd(_) => Some("zst"),
        }
    }

    /// Recognizes a compression token.
    pub fn from_str(s: &str) -> (r: Option<Compression>)
        ensures
            s@ == "zst"@ <==> r == Some(Compression::Zstd(DEFAULT_COMPRESSION_LEVEL as i32)),
            r is None <==> s@ != "zst"@,
    {
        proof {
            reveal_strlit("zst");
        }
        if String::from_str(s) == String::from_str("zst") {
            Some(Compression::Zstd(DEFAULT_COMPRESSION_LEVEL))
        } else {
            None
        }
    }

    /// Dictionary compression at the default level.
    pub fn default_zstd() -> (r: Compression)
        ensures
            r == Compression::Zstd(DEFAULT_COMPRESSION_LEVEL as i32),
    {
        Compression::Zstd(DEFAULT_COMPRESSION_LEVEL)
    }

    /// Whether any compression is applied.
    pub fn is_enabled(&self) -> (r: bool)
        ensures
            r == !(*self == Compression::Uncompressed),
    {
        match self {
            Compression::Uncompressed => false,
            Compression::Zstd(_) => true,
        }
    }

    /// The compression level, when compression is applied.
    pub fn level(&self) -> (r: Option<i32>)
        ensures
            *self == Compression::Uncompressed ==> r is None,
            forall|l: i32| *self == Compression::Zstd(l) ==> r == Some(l),
    {
        match self {
            Compression::Uncompressed => None,
            Compression::Zstd(level) => Some(*level),
        }
    }

    /// Every compression choice, in a fixed order.
    pub fn all() -> (r: Vec<Compression>)
        ensures
            r@ =~= seq![
                Compression::Uncompressed,
                Compression::Zstd(DEFAULT_COMPRESSION_LEVEL as i32),
            ],
    {
        let mut out: Vec<Compression> = Vec::new();
        out.push(Compression::Uncompressed);
        out.push(Compression::Zstd(DEFAULT_COMPRESSION_LEVEL));
        out
    }
}

/// The file names a basename may carry, across every permitted format and
/// compression combination, in a fixed order.
pub fn candidate_file_names(file_name: &str) -> (r: Vec<String>)
    ensures
        r@.len() == 4,
        r@[0]@ == file_name@ + ".ecoord.json"@,
        r@[1]@ == file_name@ + ".ecoord.json.zst"@,
        r@[2]@ == file_name@ + ".ecoord.csv"@,
        r@[3]@ == file_name@ + ".ecoord.csv.zst"@,
{
    let mut out: Vec<String> = Vec::new();
    let base = String::from_str(file_name);
    out.push(base.clone().concat(".ecoord.json"));
    out.push(base.clone().concat(".ecoord.json.zst"));
    out.push(base.clone().concat(".ecoord.csv"));
    out.push(base.concat(".ecoord.csv.zst"));
    out
}

/// Decides a search by basename from the existence of each candidate file:
/// none found opens nothing, exactly one is picked, more than one is an
/// error.
pub fn select_existing_candidate(found: &Vec<bool>) -> (r: Result<
    Option<usize>,
    crate::error::IoError,
>)
    ensures
        (r matches Ok(o) && o is None) ==> (forall|k: int| 0 <= k < found@.len() ==> !found@[k]),
        (forall|k: int| 0 <= k < found@.len() ==> !found@[k]) ==> (r matches Ok(o) && o is None),
        r matches Ok(o) ==> (o matches Some(i) ==> i < found@.len() && found@[i as int] && (
        forall|k: int| 0 <= k < found@.len() && k != i ==> !found@[k])),
        r is Err <==> exists|i: int, j: int| 0 <= i < j < found@.len() && found@[i] && found@[j],
        r matches Err(e) ==> e matches crate::error::IoError::MultipleFiles(),
{
    let mut first: Option<usize> = None;
    let mut k: usize = 0;
    while k < found.len()
        invariant
            0 <= k <= found@.len(),
            first is None ==> forall|m: int| 0 <= m < k ==> !found@[m],
            first matches Some(i) ==> i < k && found@[i as int] && (forall|m: int|
                0 <= m < k && m != i ==> !found@[m]),
        decreases found@.len() - k,
    {
        if found[k] {
            match first {
                None => {
                    first = Some(k);
                },
                Some(i) => {
                    proof {
                        assert(0 <= i < k < found@.len() && found@[i as int] && found@[k as int]);
                    }
                    return Err(crate::error::IoError::MultipleFiles());
                },
            }
        }
        k = k + 1;
    }
    proof {
        if exists|i: int, j: int| 0 <= i < j < found@.len() && found@[i] && found@[j] {
            let (i, j): (int, int) = choose|i: int, j: int|
                0 <= i < j < found@.len() && found@[i] && found@[j];
            assert(false);
        }
    }
    Ok(first)
}

/// Recognizes the format and compression of a file from its final extension
/// tokens: the last token names the compression (absent when it names no
/// compression), and the token before it — or the last itself — names the
/// format.
pub fn classify_extension_tokens(last: &str, before_last: Option<&str>) -> (r: Option<
    (Format, Compression),
>)
    ensures
        r matches Some(pair) ==> {
            &&& (last@ == "zst"@ ==> pair.1 == Compression::Zstd(DEFAULT_COMPRESSION_LEVEL as i32)
                && (before_last matches Some(b) && Format::spec_of_lower(lower_of(b@))
                    == Some(pair.0)))
            &&& (last@ != "zst"@ ==> pair.1 == Compression::Uncompressed && Format::spec_of_lower(
                lower_of(last@),
            ) == Some(pair.0))
        },
        r is None <==> ((last@ == "zst"@ && (before_last is None || (before_last matches Some(b)
            && Format::spec_of_lower(lower_of(b@)) is None))) || (last@ != "zst"@
            && Format::spec_of_lower(lower_of(last@)) is None)),
{
    match Compression::from_str(last) {
        Some(compression) => {
            match before_last {
                Some(b) => {
                    match Format::from_str(b) {
                        Some(format) => Some((format, compression)),
                        None => None,
                    }
                },
                None => None,
            }
        },
        None => {
            match Format::from_str(last) {
                Some(format) => Some((format, Compression::Uncompressed)),
                None => None,
            }
        },
    }
}

impl Format {
    /// Which format a lowercase token names.
    pub open spec fn spec_of_lower(s: Seq<char>) -> Option<Format> {
        if s == "json"@ {
            Some(Format::Json)
        } else if s == "csv"@ {
            Some(Format::Csv)
        } else {
            None
        }
    }
}

/// Configures reading a persisted transform tree from a source of bytes.
#[derive(Debug)]
pub struct EcoordReader<R> {
    pub reader: R,
    pub compression: Compression,
    pub format: Format,
}

impl<R> EcoordReader<R> {
    /// A reader over the given source, defaulting to uncompressed JSON.
    pub fn new(reader: R) -> (r: EcoordReader<R>)
        ensures
            r.reader == reader,
            r.compression == Compression::Uncompressed,
            r.format == Format::Json,
    {
        EcoordReader { reader, compression: Compression::Uncompressed, format: Format::Json }
    }

    pub fn with_compression(self, compression: Compression) -> (r: EcoordReader<R>)
        ensures
            r.reader == self.reader,
            r.compression == compression,
            r.format == self.format,
    {
        EcoordReader { reader: self.reader, compression, format: self.format }
    }

    pub fn with_format(self, format: Format) -> (r: EcoordReader<R>)
        ensures
            r.reader == self.reader,
            r.compression == self.compression,
            r.format == format,
    {
        EcoordReader { reader: self.reader, compression: self.compression, format }
    }

    /// Surrenders the configuration to the caller that performs the read.
    pub fn into_parts(self) -> (r: (R, Compression, Format))
        ensures
            r.0 == self.reader,
            r.1 == self.compression,
            r.2 == self.format,
    {
        (self.reader, self.compression, self.format)
    }
}

/// Configures writing a transform tree to a sink of bytes.
#[derive(Debug)]
pub struct EcoordWriter<W> {
    pub writer: W,
    pub compression: Compression,
    pub format: Format,
    pub pretty: bool,
}

impl<W> EcoordWriter<W> {
    /// A writer over the given sink, defaulting to compact, uncompressed
    /// JSON.
    pub fn new(writer: W) -> (r: EcoordWriter<W>)
        ensures
            r.writer == writer,
            r.compression == Compression::Uncompressed,
            r.format == Format::Json,
            !r.pretty,
    {
        EcoordWriter { writer, compression: Compression::Uncompressed, format: Format::Json, pretty: false }
    }

    pub fn with_compression(self, compression: Compression) -> (r: EcoordWriter<W>)
        ensures
            r.writer == self.writer,
            r.compression == compression,
            r.format == self.format,
            r.pretty == self.pretty,
    {
        EcoordWriter { writer: self.writer, compression, format: self.format, pretty: self.pretty }
    }

    pub fn with_format(self, format: Format) -> (r: EcoordWriter<W>)
        ensures
            r.writer == self.writer,
            r.compression == self.compression,
            r.format == format,
            r.pretty == self.pretty,
    {
        EcoordWriter {
            writer: self.writer,
            compression: self.compression,
            format,
            pretty: self.pretty,
        }
    }

    pub fn with_pretty(self, pretty: bool) -> (r: EcoordWriter<W>)
        ensures
            r.writer == self.writer,
            r.compression == self.compression,
            r.format == self.format,
            r.pretty == pretty,
    {
        EcoordWriter {
            writer: self.writer,
            compression: self.compression,
            format: self.format,
            pretty,
        }
    }

    /// Sets pretty output; the name the tabular conversion path uses.
    pub fn with_pretty_write(self, pretty: bool) -> (r: EcoordWriter<W>)
        ensures
            r.writer == self.writer,
            r.compression == self.compression,
            r.format == self.format,
            r.pretty == pretty,
    {
        self.with_pretty(pretty)
    }

    /// Surrenders the configuration to the caller that performs the write.
    pub fn into_parts(self) -> (r: (W, Compression, Format, bool))
        ensures
            r.0 == self.writer,
            r.1 == self.compression,
            r.2 == self.format,
            r.3 == self.pretty,
    {
        (self.writer, self.compression, self.format, self.pretty)
    }
}

/// Configures reading a tabular trajectory into the multi-channel model.
#[derive(Debug)]
pub struct TabularReader<R> {
    pub reader: R,
    pub trajectory_channel_id: ChannelId,
    pub trajectory_frame_id: FrameId,
    pub trajectory_child_frame_id: FrameId,
}

impl<R> TabularReader<R> {
    /// A reader over the given source with the standard trajectory names.
    pub fn new(reader: R) -> (r: TabularReader<R>)
        ensures
            r.trajectory_channel_id@ == "trajectory"@,
            r.trajectory_frame_id@ == "world"@,
            r.trajectory_child_frame_id@ == "body"@,
    {
        TabularReader {
            reader,
            trajectory_channel_id: ChannelId::from("trajectory"),
            trajectory_frame_id: FrameId::from("world"),
            trajectory_child_frame_id: FrameId::from("body"),
        }
    }

    pub fn with_trajectory_channel_id(self, value: ChannelId) -> (r: TabularReader<R>)
        ensures
            r.trajectory_channel_id@ == value@,
            r.trajectory_frame_id@ == self.trajectory_frame_id@,
            r.trajectory_child_frame_id@ == self.trajectory_child_frame_id@,
    {
        TabularReader {
            reader: self.reader,
            trajectory_channel_id: value,
            trajectory_frame_id: self.trajectory_frame_id,
            trajectory_child_frame_id: self.trajectory_child_frame_id,
        }
    }

    pub fn with_trajectory_frame_id(self, value: FrameId) -> (r: TabularReader<R>)
        ensures
            r.trajectory_channel_id@ == self.trajectory_channel_id@,
            r.trajectory_frame_id@ == value@,
            r.trajectory_child_frame_id@ == self.trajectory_child_frame_id@,
    {
        TabularReader {
            reader: self.reader,
            trajectory_channel_id: self.trajectory_channel_id,
            trajectory_frame_id: value,
            trajectory_child_frame_id: self.trajectory_child_frame_id,
        }
    }

    pub fn with_trajectory_child_frame_id(self, value: FrameId) -> (r: TabularReader<R>)
        ensures
            r.trajectory_channel_id@ == self.trajectory_channel_id@,
            r.trajectory_frame_id@ == self.trajectory_frame_id@,
            r.trajectory_child_frame_id@ == value@,
    {
        TabularReader {
            reader: self.reader,
            trajectory_channel_id: self.trajectory_channel_id,
            trajectory_frame_id: self.trajectory_frame_id,
            trajectory_child_frame_id: value,
        }
    }
}

/// Configures reading a pose file into a transform tree.
#[derive(Debug)]
pub struct KittiReader<R> {
    pub reader: R,
    pub trajectory_frame_id: FrameId,
    pub trajectory_child_frame_id: FrameId,
    pub global_frame_id: FrameId,
    pub local_origin_offset: Option<crate::transform::Vec3>,
}

impl<R> KittiReader<R> {
    /// A reader over the given source with the standard frame names.
    pub fn new(reader: R) -> (r: KittiReader<R>)
        ensures
            r.trajectory_frame_id@ == "local"@,
            r.trajectory_child_frame_id@ == "base_link"@,
            r.global_frame_id@ == "global"@,
            r.local_origin_offset is None,
    {
        KittiReader {
            reader,
            trajectory_frame_id: FrameId::local(),
            trajectory_child_frame_id: FrameId::base_link(),
            global_frame_id: FrameId::global(),
            local_origin_offset: None,
        }
    }

    pub fn with_trajectory_parent_frame_id(self, value: FrameId) -> (r: KittiReader<R>)
        ensures
            r.trajectory_frame_id@ == value@,
            r.trajectory_child_frame_id@ == self.trajectory_child_frame_id@,
            r.global_frame_id@ == self.global_frame_id@,
            r.local_origin_offset == self.local_origin_offset,
    {
        KittiReader {
            reader: self.reader,
            trajectory_frame_id: value,
            trajectory_child_frame_id: self.trajectory_child_frame_id,
            global_frame_id: self.global_frame_id,
            local_origin_offset: self.local_origin_offset,
        }
    }

    pub fn with_trajectory_child_frame_id(self, value: FrameId) -> (r: KittiReader<R>)
        ensures
            r.trajectory_frame_id@ == self.trajectory_frame_id@,
            r.trajectory_child_frame_id@ == value@,
            r.global_frame_id@ == self.global_frame_id@,
            r.local_origin_offset == self.local_origin_offset,
    {
        KittiReader {
            reader: self.reader,
            trajectory_frame_id: self.trajectory_frame_id,
            trajectory_child_frame_id: value,
            global_frame_id: self.global_frame_id,
            local_origin_offset: self.local_origin_offset,
        }
    }

    pub fn with_global_frame_id(self, value: FrameId) -> (r: KittiReader<R>)
        ensures
            r.trajectory_frame_id@ == self.trajectory_frame_id@,
            r.trajectory_child_frame_id@ == self.trajectory_child_frame_id@,
            r.global_frame_id@ == value@,
            r.local_origin_offset == self.local_origin_offset,
    {
        KittiReader {
            reader: self.reader,
            trajectory_frame_id: self.trajectory_frame_id,
            trajectory_child_frame_id: self.trajectory_child_frame_id,
            global_frame_id: value,
            local_origin_offset: self.local_origin_offset,
        }
    }

    pub fn with_local_origin_offset(self, value: Option<crate::transform::Vec3>) -> (r:
        KittiReader<R>)
        ensures
            r.trajectory_frame_id@ == self.trajectory_frame_id@,
            r.trajectory_child_frame_id@ == self.trajectory_child_frame_id@,
            r.global_frame_id@ == self.global_frame_id@,
            r.local_origin_offset == value,
    {
        KittiReader {
            reader: self.reader,
            trajectory_frame_id: self.trajectory_frame_id,
            trajectory_child_frame_id: self.trajectory_child_frame_id,
            global_frame_id: self.global_frame_id,
            local_origin_offset: value,
        }
    }
}

} // verus!
