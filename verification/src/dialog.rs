//! The command line of the one-shot native file dialog helper: what a request
//! looks like as arguments, and how the helper reads them back.
use vstd::prelude::*;

use crate::text::{owned, push_str, same_text, trim, trimmed};

verus! {

/// Hidden first argument that turns the executable into a one-shot dialog helper.
pub const CHILD_FLAG: &'static str = "--file-dialog";

const OPEN_MODE: &'static str = "open";

const SAVE_MODE: &'static str = "save";

const DIRECTORY_FLAG: &'static str = "--directory";

const FILE_NAME_FLAG: &'static str = "--file-name";

#[derive(Debug, Clone, PartialEq, Eq)]
pub enum DialogRequest {
    OpenInput,
    SaveOutput { directory: Option<String>, file_name: Option<String> },
}

/// A request as text, for specifications.
pub enum RequestText {
    OpenInput,
    SaveOutput { directory: Option<Seq<char>>, file_name: Option<Seq<char>> },
}

pub open spec fn opt_text(o: Option<String>) -> Option<Seq<char>> {
    match o {
        Some(s) => Some(s@),
        None => None,
    }
}

impl DialogRequest {
    pub open spec fn text(&self) -> RequestText {
        match self {
            DialogRequest::OpenInput => RequestText::OpenInput,
            DialogRequest::SaveOutput { directory, file_name } => RequestText::SaveOutput {
                directory: opt_text(*directory),
                file_name: opt_text(*file_name),
            },
        }
    }
}

#[derive(Debug, Clone)]
pub enum DialogError {
    /// The running executable could not be located; the operating system's reason.
    CurrentExe(String),
    /// The helper process could not be started; the operating system's reason.
    Spawn(String),
    /// The helper process failed; its message.
    Helper(String),
    BadArguments,
}

impl DialogError {
    /// The sentence the interface shows for this error.
    pub fn message(&self) -> (r: String)
        ensures
            r@ == (match self {
                DialogError::CurrentExe(reason) => "Failed to locate the running executable: "@ + reason@,
                DialogError::Spawn(reason) => "Failed to open the file dialog: "@ + reason@,
                DialogError::Helper(reason) => "The file dialog helper failed: "@ + reason@,
                DialogError::BadArguments => "Unsupported file dialog arguments."@,
            }),
    {
        let mut r = String::new();
        match self {
            DialogError::CurrentExe(reason) => {
                push_str(&mut r, "Failed to locate the running executable: ");
                push_str(&mut r, reason.as_str());
            },
            DialogError::Spawn(reason) => {
                push_str(&mut r, "Failed to open the file dialog: ");
                push_str(&mut r, reason.as_str());
            },
            DialogError::Helper(reason) => {
                push_str(&mut r, "The file dialog helper failed: ");
                push_str(&mut r, reason.as_str());
            },
            DialogError::BadArguments => push_str(&mut r, "Unsupported file dialog arguments."),
        }
        assert(r@ =~= (match self {
            DialogError::CurrentExe(reason) => "Failed to locate the running executable: "@ + reason@,
            DialogError::Spawn(reason) => "Failed to open the file dialog: "@ + reason@,
            DialogError::Helper(reason) => "The file dialog helper failed: "@ + reason@,
            DialogError::BadArguments => "Unsupported file dialog arguments."@,
        }));
        r
    }
}

/// The arguments that make a fresh process show exactly this dialog.
pub open spec fn request_args(request: RequestText) -> Seq<Seq<char>> {
    match request {
        RequestText::OpenInput => seq!["--file-dialog"@, "open"@],
        RequestText::SaveOutput { directory, file_name } => seq!["--file-dialog"@, "save"@] + (
        match directory {
            Some(d) => seq!["--directory"@, d],
            None => Seq::empty(),
        }) + (match file_name {
            Some(f) => seq!["--file-name"@, f],
            None => Seq::empty(),
        }),
    }
}

/// The `--flag value` pairs of a save request; a later flag overrides an
/// earlier one, and anything but a known flag with its value is refused.
pub open spec fn parse_pairs(
    rest: Seq<Seq<char>>,
    directory: Option<Seq<char>>,
    file_name: Option<Seq<char>>,
) -> Option<RequestText>
    decreases rest.len(),
{
    if rest.len() == 0 {
        Some(RequestText::SaveOutput { directory, file_name })
    } else if rest.len() == 1 {
        None
    } else if rest[0] == "--directory"@ {
        parse_pairs(rest.skip(2), Some(rest[1]), file_name)
    } else if rest[0] == "--file-name"@ {
        parse_pairs(rest.skip(2), directory, Some(rest[1]))
    } else {
        None
    }
}

/// The request a helper's arguments (from [`CHILD_FLAG`] on) describe, if any.
pub open spec fn parse_request(args: Seq<Seq<char>>) -> Option<RequestText> {
    if args.len() < 2 || args[0] != "--file-dialog"@ {
        None
    } else if args[1] == "open"@ {
        if args.len() == 2 {
            Some(RequestText::OpenInput)
        } else {
            None
        }
    } else if args[1] == "save"@ {
        parse_pairs(args.skip(2), None, None)
    } else {
        None
    }
}

pub open spec fn texts(v: Seq<String>) -> Seq<Seq<char>> {
    v.map_values(|s: String| s@)
}

fn push_text(args: &mut Vec<String>, s: &str)
    ensures
        texts(final(args)@) == texts(old(args)@).push(s@),
{
    args.push(owned(s));
    assert(texts(args@) =~= texts(old(args)@).push(s@));
}

/// The helper reads back every request it could be given: parsing the
/// arguments of a request yields that request.
pub proof fn lemma_args_round_trip(request: RequestText)
    ensures
        parse_request(request_args(request)) == Some(request),
{
    reveal_strlit("--file-dialog");
    reveal_strlit("open");
    reveal_strlit("save");
    reveal_strlit("--directory");
    reveal_strlit("--file-name");
    let args = request_args(request);
    if request is OpenInput {
        assert(args.len() == 2);
        assert(args[0] == "--file-dialog"@);
        assert(args[1] == "open"@);
    } else {
        let directory = request->directory;
        let file_name = request->file_name;
        let d: Seq<Seq<char>> = match directory {
            Some(d) => seq!["--directory"@, d],
            None => Seq::empty(),
        };
        let f: Seq<Seq<char>> = match file_name {
            Some(f) => seq!["--file-name"@, f],
            None => Seq::empty(),
        };
        assert(args.skip(2) =~= d + f);
        assert("save"@[0] != "open"@[0]);
        assert("save"@ != "open"@);
        assert("--directory"@[2] != "--file-name"@[2]);
        assert("--directory"@ != "--file-name"@);
        let tail = d + f;
        assert(args[0] == "--file-dialog"@ && args[1] == "save"@);
        assert(parse_request(args) == parse_pairs(tail, None, None));
        if directory is Some {
            assert(tail.skip(2) =~= f);
            assert(tail[0] == "--directory"@);
            assert(tail[1] == directory->0);
            assert(parse_pairs(tail, None, None) == parse_pairs(f, directory, None));
        } else {
            assert(tail =~= f);
        }
        assert(request == RequestText::SaveOutput { directory, file_name });
        if file_name is Some {
            assert(f.skip(2) =~= Seq::<Seq<char>>::empty());
            assert(f[0] == "--file-name"@);
            assert(f[0] != "--directory"@);
            assert(parse_pairs(f, directory, None) == parse_pairs(
                Seq::<Seq<char>>::empty(),
                directory,
                file_name,
            ));
        } else {
            assert(f =~= Seq::<Seq<char>>::empty());
        }
        assert(parse_pairs(f, directory, None) == Some(request));
    }
}

impl DialogRequest {
    /// Arguments that make a fresh process of this binary show exactly this dialog.
    pub fn to_args(&self) -> (r: Vec<String>)
        ensures
            texts(r@) == request_args(self.text()),
    {
        let mut args: Vec<String> = Vec::new();
        push_text(&mut args, CHILD_FLAG);
        match self {
            DialogRequest::OpenInput => push_text(&mut args, OPEN_MODE),
            DialogRequest::SaveOutput { directory, file_name } => {
                push_text(&mut args, SAVE_MODE);
                match directory {
                    Some(directory) => {
                        push_text(&mut args, DIRECTORY_FLAG);
                        push_text(&mut args, directory.as_str());
                    },
                    None => {},
                }
                match file_name {
                    Some(file_name) => {
                        push_text(&mut args, FILE_NAME_FLAG);
                        push_text(&mut args, file_name.as_str());
                    },
                    None => {},
                }
            },
        }
        assert(texts(args@) =~= request_args(self.text()));
        args
    }

    /// Inverse of [`DialogRequest::to_args`], starting at the [`CHILD_FLAG`].
    pub fn parse_args(args: Vec<String>) -> (r: Result<Self, DialogError>)
        ensures
            match r {
                Ok(request) => parse_request(texts(args@)) == Some(request.text()),
                Err(error) => parse_request(texts(args@)) is None && error is BadArguments,
            },
    {
        let ghost words = texts(args@);
        if args.len() < 2 || !same_text(args[0].as_str(), CHILD_FLAG) {
            return Err(DialogError::BadArguments);
        }
        if same_text(args[1].as_str(), OPEN_MODE) {
            if args.len() == 2 {
                return Ok(DialogRequest::OpenInput);
            }
            return Err(DialogError::BadArguments);
        }
        if !same_text(args[1].as_str(), SAVE_MODE) {
            return Err(DialogError::BadArguments);
        }
        let mut directory: Option<String> = None;
        let mut file_name: Option<String> = None;
        let mut i: usize = 2;
        while i < args.len()
            invariant
                2 <= i <= args.len(),
                words == texts(args@),
                words.len() >= 2,
                words[0] == "--file-dialog"@,
                words[1] == "save"@,
                words[1] != "open"@,
                parse_request(words) == parse_pairs(
                    words.skip(i as int),
                    opt_text(directory),
                    opt_text(file_name),
                ),
            decreases args.len() - i,
        {
            if i + 1 >= args.len() {
                return Err(DialogError::BadArguments);
            }
            let ghost rest = words.skip(i as int);
            assert(rest[0] == args@[i as int]@);
            assert(rest[1] == args@[i + 1]@);
            assert(rest.skip(2) =~= words.skip(i + 2));
            if same_text(args[i].as_str(), DIRECTORY_FLAG) {
                directory = Some(args[i + 1].clone());
            } else if same_text(args[i].as_str(), FILE_NAME_FLAG) {
                file_name = Some(args[i + 1].clone());
            } else {
                return Err(DialogError::BadArguments);
            }
            i = i + 2;
        }
        assert(words.skip(i as int) =~= Seq::<Seq<char>>::empty());
        Ok(DialogRequest::SaveOutput { directory, file_name })
    }
}

/// What the helper printed: a cancelled dialog prints nothing.
pub fn parse_selection(stdout: String) -> (r: Option<String>)
    ensures
        stdout@.len() == 0 ==> r is None,
        stdout@.len() > 0 ==> (r matches Some(path) && path@ == stdout@),
{
    if crate::text::chars_of(stdout.as_str()).len() == 0 {
        None
    } else {
        Some(stdout)
    }
}

/// The error for a helper that exited unsuccessfully with `stderr`.
pub fn helper_failure(stderr: &str) -> (r: DialogError)
    ensures
        r matches DialogError::Helper(message) && message@ == (if trim(stderr@).len() == 0 {
            "the helper process exited with an error"@
        } else {
            trim(stderr@)
        }),
{
    let message = trimmed(stderr);
    let empty = crate::text::chars_of(message.as_str()).len() == 0;
    if empty {
        DialogError::Helper(owned("the helper process exited with an error"))
    } else {
        DialogError::Helper(message)
    }
}

} // verus!
