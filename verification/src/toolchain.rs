//! The FFmpeg installation otter drives: where the tools are, which versions
//! they report, and which of the encoders otter knows they were built with.
use vstd::prelude::*;
use crate::paths::std_path_join;
use crate::transcode::texts;

use crate::domain::{AudioCodec, VideoCodec};
use crate::text::{chars_of, contains_word, has_word, owned, push_str, same_text, string_from};

verus! {

#[derive(Debug, Clone)]
pub struct Toolchain {
    pub ffmpeg: String,
    pub ffprobe: String,
    pub ffmpeg_version: String,
    pub ffprobe_version: String,
    /// The known encoders this build offers.
    pub encoders: Vec<String>,
}

/// The encoders otter can use, in the order it looks for them.
pub open spec fn known_encoders() -> Seq<Seq<char>> {
    seq![
        "libx264"@,
        "libx265"@,
        "libsvtav1"@,
        "libvpx-vp9"@,
        "aac"@,
        "libopus"@,
        "libmp3lame"@,
    ]
}

/// The known encoders that `listing` (the output of `ffmpeg -encoders`) names
/// as a whole word, in the order of [`known_encoders`].
pub open spec fn detected(listing: Seq<char>, count: int) -> Seq<Seq<char>>
    decreases count,
{
    if count <= 0 {
        Seq::empty()
    } else {
        let name = known_encoders()[count - 1];
        let before = detected(listing, count - 1);
        if has_word(listing, name) {
            before.push(name)
        } else {
            before
        }
    }
}

/// The first line of a tool's `-version` output, as `str::lines` splits it,
/// or `Unknown version` for empty output.
pub open spec fn first_line(s: Seq<char>) -> Seq<char> {
    if s.len() == 0 {
        "Unknown version"@
    } else {
        match crate::text::first_index(s, '\n') {
            Some(i) => if i > 0 && s[i - 1] == '\r' {
                s.take(i - 1)
            } else {
                s.take(i)
            },
            None => s,
        }
    }
}

#[derive(Debug, Clone)]
pub enum ToolError {
    /// A tool was found neither through its override nor on the search path.
    NotFound(String),
    /// A tool could not be started.
    Invocation { path: String, reason: String },
    /// A tool exited with an error.
    Failed { path: String, message: String },
}

impl ToolError {
    /// The sentence the terminal shows for this error.
    pub fn message(&self) -> (r: String)
        ensures
            r@ == (match self {
                ToolError::NotFound(tool) => tool@
                    + " was not found. Install FFmpeg with `brew install ffmpeg` or set an override environment variable."@,
                ToolError::Invocation { path, reason } => "Failed to run "@ + path@ + ": "@ + reason@,
                ToolError::Failed { path, message } => path@ + " exited with an error: "@ + message@,
            }),
    {
        let mut r = String::new();
        match self {
            ToolError::NotFound(tool) => {
                push_str(&mut r, tool.as_str());
                push_str(
                    &mut r,
                    " was not found. Install FFmpeg with `brew install ffmpeg` or set an override environment variable.",
                );
            },
            ToolError::Invocation { path, reason } => {
                push_str(&mut r, "Failed to run ");
                push_str(&mut r, path.as_str());
                push_str(&mut r, ": ");
                push_str(&mut r, reason.as_str());
            },
            ToolError::Failed { path, message } => {
                push_str(&mut r, path.as_str());
                push_str(&mut r, " exited with an error: ");
                push_str(&mut r, message.as_str());
            },
        }
        assert(r@ =~= (match self {
            ToolError::NotFound(tool) => tool@
                + " was not found. Install FFmpeg with `brew install ffmpeg` or set an override environment variable."@,
            ToolError::Invocation { path, reason } => "Failed to run "@ + path@ + ": "@ + reason@,
            ToolError::Failed { path, message } => path@ + " exited with an error: "@ + message@,
        }));
        r
    }
}

fn known_encoder_names() -> (r: Vec<&'static str>)
    ensures
        r@.len() == 7,
        forall|i: int| 0 <= i < 7 ==> r@[i]@ == known_encoders()[i],
{
    vec!["libx264", "libx265", "libsvtav1", "libvpx-vp9", "aac", "libopus", "libmp3lame"]
}

/// The known encoders that an `ffmpeg -encoders` listing names.
pub fn detect_encoders(listing: &str) -> (r: Vec<String>)
    ensures
        r@.map_values(|s: String| s@) == detected(listing@, 7),
{
    let text = chars_of(listing);
    let names = known_encoder_names();
    let mut found: Vec<String> = Vec::new();
    let mut i: usize = 0;
    while i < 7
        invariant
            0 <= i <= 7,
            names@.len() == 7,
            text@ == listing@,
            forall|k: int| 0 <= k < 7 ==> names@[k]@ == known_encoders()[k],
            found@.map_values(|s: String| s@) == detected(listing@, i as int),
        decreases 7 - i,
    {
        let name = chars_of(names[i]);
        if contains_word(&text, &name) {
            let ghost before = found@;
            found.push(owned(names[i]));
            assert(found@.map_values(|s: String| s@) =~= before.map_values(|s: String| s@).push(
                known_encoders()[i as int],
            ));
        }
        i = i + 1;
    }
    found
}

/// The first line of a tool's `-version` output.
pub fn version_line(output: &str) -> (r: String)
    ensures
        r@ == first_line(output@),
{
    let s = chars_of(output);
    if s.len() == 0 {
        return owned("Unknown version");
    }
    match crate::text::find_char(&s, '\n') {
        Some(i) => {
            if i > 0 && s[i - 1] == '\r' {
                crate::text::string_from_range(&s, 0, i - 1)
            } else {
                crate::text::string_from_range(&s, 0, i)
            }
        },
        None => string_from(&s),
    }
}

impl Toolchain {
    /// The encoder names this FFmpeg build offers, among the known ones.
    pub open spec fn encoder_names(&self) -> Seq<Seq<char>> {
        self.encoders@.map_values(|s: String| s@)
    }

    /// Assembles a toolchain from the two tool paths and what the tools printed
    /// for `-version` and `-hide_banner -encoders`.
    pub fn from_tool_output(
        ffmpeg: String,
        ffprobe: String,
        ffmpeg_version_output: &str,
        ffprobe_version_output: &str,
        encoder_listing: &str,
    ) -> (r: Self)
        ensures
            r.ffmpeg@ == ffmpeg@,
            r.ffprobe@ == ffprobe@,
            r.ffmpeg_version@ == first_line(ffmpeg_version_output@),
            r.ffprobe_version@ == first_line(ffprobe_version_output@),
            r.encoder_names() == detected(encoder_listing@, 7),
    {
        Toolchain {
            ffmpeg,
            ffprobe,
            ffmpeg_version: version_line(ffmpeg_version_output),
            ffprobe_version: version_line(ffprobe_version_output),
            encoders: detect_encoders(encoder_listing),
        }
    }

    fn has_encoder(&self, name: &str) -> (r: bool)
        ensures
            r == self.encoder_names().contains(name@),
    {
        let mut i: usize = 0;
        while i < self.encoders.len()
            invariant
                0 <= i <= self.encoders.len(),
                forall|k: int| 0 <= k < i ==> self.encoders@[k]@ != name@,
            decreases self.encoders.len() - i,
        {
            if same_text(self.encoders[i].as_str(), name) {
                assert(self.encoder_names()[i as int] == name@);
                return true;
            }
            i = i + 1;
        }
        assert(!self.encoder_names().contains(name@)) by {
            if self.encoder_names().contains(name@) {
                let k = choose|k: int| 0 <= k < self.encoder_names().len() && self.encoder_names()[k] == name@;
                assert(self.encoders@[k]@ == name@);
            }
        }
        false
    }

    /// Whether this FFmpeg build has the encoder a video codec needs.
    pub fn supports_video(&self, codec: VideoCodec) -> (r: bool)
        ensures
            r == self.encoder_names().contains(codec.encoder_text()),
    {
        self.has_encoder(codec.encoder())
    }

    /// Whether this FFmpeg build can write an audio codec; silence needs none.
    pub fn supports_audio(&self, codec: AudioCodec) -> (r: bool)
        ensures
            r == (match codec.encoder_text() {
                Some(name) => self.encoder_names().contains(name),
                None => true,
            }),
    {
        match codec.encoder() {
            Some(name) => self.has_encoder(name),
            None => true,
        }
    }

    /// A toolchain with every software encoder, for exercising the interface
    /// without an installation.
    pub fn test_fixture() -> (r: Self)
        ensures
            r.encoder_names() == known_encoders(),
    {
        let names = known_encoder_names();
        let mut encoders: Vec<String> = Vec::new();
        let mut i: usize = 0;
        while i < 7
            invariant
                0 <= i <= 7,
                names@.len() == 7,
                forall|k: int| 0 <= k < 7 ==> names@[k]@ == known_encoders()[k],
                encoders@.map_values(|s: String| s@) == known_encoders().take(i as int),
            decreases 7 - i,
        {
            let ghost before = encoders@;
            encoders.push(owned(names[i]));
            assert(encoders@.map_values(|s: String| s@) =~= before.map_values(|s: String| s@).push(
                known_encoders()[i as int],
            ));
            assert(known_encoders().take(i + 1) =~= known_encoders().take(i as int).push(
                known_encoders()[i as int],
            ));
            i = i + 1;
        }
        assert(known_encoders().take(7) =~= known_encoders());
        Toolchain {
            ffmpeg: owned("/usr/local/bin/ffmpeg"),
            ffprobe: owned("/usr/local/bin/ffprobe"),
            ffmpeg_version: owned("ffmpeg version 8.1.2"),
            ffprobe_version: owned("ffprobe version 8.1.2"),
            encoders,
        }
    }
}

/// `binary` in each of the first `n` directories.
pub open spec fn in_dirs(dirs: Seq<Seq<char>>, binary: Seq<char>, n: nat) -> Seq<Seq<char>> {
    Seq::new(n, |k: int| std_path_join(dirs[k], binary))
}

/// The places a tool is looked for, in order: the override, the tool in each
/// search-path directory, then in the usual Homebrew directories.
pub open spec fn candidates_of(
    override_path: Option<Seq<char>>,
    search: Seq<Seq<char>>,
    binary: Seq<char>,
) -> Seq<Seq<char>> {
    let first = match override_path {
        Some(p) => seq![p],
        None => Seq::empty(),
    };
    first + in_dirs(search, binary, search.len()) + seq![
        std_path_join("/opt/homebrew/bin"@, binary),
        std_path_join("/usr/local/bin"@, binary),
    ]
}

/// Where to look for `binary`; the host takes the first candidate that is a file.
pub fn tool_candidates(override_path: Option<String>, search: &Vec<String>, binary: &str) -> (r: Vec<String>)
    ensures
        texts(r@) == candidates_of(crate::app::opt_text(override_path), texts(search@), binary@),
{
    let ghost dirs = texts(search@);
    let ghost given = crate::app::opt_text(override_path);
    let mut r: Vec<String> = Vec::new();
    match override_path {
        Some(p) => r.push(p),
        None => {},
    }
    let ghost first = texts(r@);
    assert(first =~= (match given {
        Some(p) => seq![p],
        None => Seq::empty(),
    }));
    let mut i: usize = 0;
    while i < search.len()
        invariant
            i <= search@.len(),
            dirs == texts(search@),
            texts(r@) == first + in_dirs(dirs, binary@, i as nat),
        decreases search.len() - i,
    {
        let ghost before = r@;
        let next = crate::paths::join(search[i].as_str(), binary);
        r.push(next);
        assert(texts(r@) =~= texts(before).push(next@));
        assert(in_dirs(dirs, binary@, (i + 1) as nat) =~= in_dirs(dirs, binary@, i as nat).push(next@));
        i = i + 1;
    }
    let ghost middle = r@;
    let a = crate::paths::join("/opt/homebrew/bin", binary);
    let b = crate::paths::join("/usr/local/bin", binary);
    r.push(a);
    r.push(b);
    assert(texts(r@) =~= texts(middle).push(a@).push(b@));
    assert(texts(r@) =~= candidates_of(given, dirs, binary@));
    r
}

} // verus!
