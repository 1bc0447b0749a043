use vstd::prelude::*;
use vstd::string::StringSliceAdditionalSpecFns;

use base64::Engine;

use crate::json::quoted;
use crate::json::quote_into;
use crate::strutil::{chars_to_string, push_str_chars, str_eq};
use crate::tree::CodeBlockTree;

verus! {

/// The kinds of problems that the completion-time heuristics can report.
#[derive(Clone, Copy, Debug, PartialEq, Eq, Structural)]
pub enum CheckProblem {
    /// The completion still has holes or undefined types.
    NotComplete,
    /// The completion added or removed code that is not a type.
    ChangedCode,
    /// The completion added or removed comments.
    ChangedComments,
}

/// The tag under which a problem kind travels on the wire.
pub open spec fn check_problem_tag_spec(p: CheckProblem) -> Seq<char> {
    match p {
        CheckProblem::NotComplete => seq!['N', 'o', 't', 'C', 'o', 'm', 'p', 'l', 'e', 't', 'e'],
        CheckProblem::ChangedCode => seq!['C', 'h', 'a', 'n', 'g', 'e', 'd', 'C', 'o', 'd', 'e'],
        CheckProblem::ChangedComments => seq![
            'C',
            'h',
            'a',
            'n',
            'g',
            'e',
            'd',
            'C',
            'o',
            'm',
            'm',
            'e',
            'n',
            't',
            's',
        ],
    }
}

/// Writes a problem kind as its tag.
pub fn check_problem_tag(p: &CheckProblem) -> (r: String)
    ensures
        r@ == check_problem_tag_spec(*p),
{
    match p {
        CheckProblem::NotComplete => {
            let s = "NotComplete";
            proof {
                reveal_strlit("NotComplete");
                assert(s@ =~= check_problem_tag_spec(CheckProblem::NotComplete));
            }
            s.to_owned()
        },
        CheckProblem::ChangedCode => {
            let s = "ChangedCode";
            proof {
                reveal_strlit("ChangedCode");
                assert(s@ =~= check_problem_tag_spec(CheckProblem::ChangedCode));
            }
            s.to_owned()
        },
        CheckProblem::ChangedComments => {
            let s = "ChangedComments";
            proof {
                reveal_strlit("ChangedComments");
                assert(s@ =~= check_problem_tag_spec(CheckProblem::ChangedComments));
            }
            s.to_owned()
        },
    }
}

/// Reads a problem kind back from its tag; exactly the three tags parse.
pub fn parse_check_problem(s: &str) -> (r: Option<CheckProblem>)
    ensures
        r matches Some(p) ==> s@ == check_problem_tag_spec(p),
        forall|p: CheckProblem| s@ == check_problem_tag_spec(p) ==> r == Some(p),
{
    proof {
        reveal_strlit("NotComplete");
        reveal_strlit("ChangedCode");
        reveal_strlit("ChangedComments");
        assert("NotComplete"@ =~= check_problem_tag_spec(CheckProblem::NotComplete));
        assert("ChangedCode"@ =~= check_problem_tag_spec(CheckProblem::ChangedCode));
        assert("ChangedComments"@ =~= check_problem_tag_spec(CheckProblem::ChangedComments));
    }
    if str_eq(s, "NotComplete") {
        Some(CheckProblem::NotComplete)
    } else if str_eq(s, "ChangedCode") {
        Some(CheckProblem::ChangedCode)
    } else if str_eq(s, "ChangedComments") {
        Some(CheckProblem::ChangedComments)
    } else {
        None
    }
}

/// The categories of annotation slots that a completion may be asked to fill.
#[derive(Clone, Copy, Debug, PartialEq, Eq, Structural)]
pub enum AnnotateType {
    /// Parameter annotations.
    Params,
    /// Return-type annotations.
    Returns,
    /// Variable-declaration annotations.
    Declarations,
    /// Class-property annotations.
    Properties,
}

/// How talking to the language server can fail.
#[derive(Debug)]
pub enum LangServerError {
    /// An error reported by the language client itself.
    LC(String),
    /// The analyzer process could not be spawned.
    ProcessSpawn,
    /// The analyzer socket could not be connected.
    SocketConnect,
    /// Reading from or writing to the socket failed.
    SocketIO,
}

/// The message text for one error.
pub open spec fn error_message_spec(e: LangServerError) -> Seq<char> {
    match e {
        LangServerError::LC(s) => seq![
            'L',
            'a',
            'n',
            'g',
            'u',
            'a',
            'g',
            'e',
            ' ',
            'c',
            'l',
            'i',
            'e',
            'n',
            't',
            ' ',
            'e',
            'r',
            'r',
            'o',
            'r',
            ':',
            ' ',
        ] + s@,
        LangServerError::ProcessSpawn => seq![
            'c',
            'o',
            'u',
            'l',
            'd',
            ' ',
            'n',
            'o',
            't',
            ' ',
            's',
            'p',
            'a',
            'w',
            'n',
            ' ',
            'l',
            'a',
            'n',
            'g',
            'u',
            'a',
            'g',
            'e',
            ' ',
            's',
            'e',
            'r',
            'v',
            'e',
            'r',
        ],
        LangServerError::SocketConnect => seq![
            'S',
            'o',
            'c',
            'k',
            'e',
            't',
            ' ',
            'c',
            'o',
            'n',
            'n',
            'e',
            'c',
            't',
            'i',
            'o',
            'n',
            ' ',
            'e',
            'r',
            'r',
            'o',
            'r',
        ],
        LangServerError::SocketIO => seq![
            'S',
            'o',
            'c',
            'k',
            'e',
            't',
            ' ',
            'I',
            'O',
            ' ',
            'e',
            'r',
            'r',
            'o',
            'r',
        ],
    }
}

impl LangServerError {
    /// A human-readable description of the error.
    pub fn message(&self) -> (r: String)
        ensures
            r@ == error_message_spec(*self),
    {
        match self {
            LangServerError::LC(s) => {
                let head = "Language client error: ";
                proof {
                    reveal_strlit("Language client error: ");
                    assert(head@ + s@ =~= error_message_spec(*self));
                }
                head.to_owned().concat(s.as_str())
            },
            LangServerError::ProcessSpawn => {
                let m = "could not spawn language server";
                proof {
                    reveal_strlit("could not spawn language server");
                    assert(m@ =~= error_message_spec(*self));
                }
                m.to_owned()
            },
            LangServerError::SocketConnect => {
                let m = "Socket connection error";
                proof {
                    reveal_strlit("Socket connection error");
                    assert(m@ =~= error_message_spec(*self));
                }
                m.to_owned()
            },
            LangServerError::SocketIO => {
                let m = "Socket IO error";
                proof {
                    reveal_strlit("Socket IO error");
                    assert(m@ =~= error_message_spec(*self));
                }
                m.to_owned()
            },
        }
    }
}

/// What the standard base64 alphabet makes of a byte string; the encoding
/// depends on the input bytes alone.
pub uninterp spec fn base64_of(bytes: Seq<u8>) -> Seq<char>;

/// Relies on base64's `Engine::encode` with the standard alphabet: the
/// returned text is a function of the input bytes alone.
#[verifier::external_body]
pub fn b64_encode_str(s: &str) -> (r: String)
    ensures
        r@ == base64_of(s.spec_bytes()),
{
    base64::engine::general_purpose::STANDARD.encode(s.as_bytes())
}

/// The opening of every request object: the command tag and the payload.
pub open spec fn json_head(cmd: Seq<char>, text: Seq<char>) -> Seq<char> {
    seq!['{', '"', 'c', 'm', 'd', '"', ':'] + quoted(cmd) + seq![',', '"', 't', 'e', 'x', 't', '"', ':']
        + quoted(text)
}

fn push_json_head(out: &mut Vec<char>, cmd: &str, text: &str)
    ensures
        final(out)@ == old(out)@ + json_head(cmd@, text@),
{
    push_str_chars(out, "{\"cmd\":");
    proof {
        reveal_strlit("{\"cmd\":");
        assert("{\"cmd\":"@ =~= seq!['{', '"', 'c', 'm', 'd', '"', ':']);
    }
    quote_into(out, cmd);
    push_str_chars(out, ",\"text\":");
    proof {
        reveal_strlit(",\"text\":");
        assert(",\"text\":"@ =~= seq![',', '"', 't', 'e', 'x', 't', '"', ':']);
    }
    quote_into(out, text);
    proof {
        assert(out@ =~= old(out)@ + json_head(cmd@, text@));
    }
}

/// A request that carries only a command tag and one payload,
/// as the `tree`, `stub` and `typecheck` commands do.
pub struct LSReq {
    pub cmd: String,
    pub text: String,
}

/// The wire form of an [`LSReq`].
pub open spec fn lsreq_json(cmd: Seq<char>, text: Seq<char>) -> Seq<char> {
    json_head(cmd, text) + seq!['}']
}

impl LSReq {
    /// Builds a request, encoding the payload as base64.
    pub fn new(cmd: &str, payload: &str) -> (r: LSReq)
        ensures
            r.cmd@ == cmd@,
            r.text@ == base64_of(payload.spec_bytes()),
    {
        LSReq { cmd: cmd.to_owned(), text: b64_encode_str(payload) }
    }

    /// Writes the request as its JSON wire form.
    pub fn to_json(&self) -> (r: String)
        ensures
            r@ == lsreq_json(self.cmd@, self.text@),
    {
        let mut out: Vec<char> = Vec::new();
        push_json_head(&mut out, self.cmd.as_str(), self.text.as_str());
        out.push('}');
        proof {
            assert(out@ =~= lsreq_json(self.cmd@, self.text@));
        }
        chars_to_string(&out)
    }
}

/// The request for the `print` command: payload plus the hole token to
/// print for missing annotations.
pub struct LSPrintReq {
    pub cmd: String,
    pub text: String,
    pub type_token: String,
}

/// The wire form of an [`LSPrintReq`]; the hole token travels as `typeName`.
pub open spec fn lsprint_json(cmd: Seq<char>, text: Seq<char>, type_token: Seq<char>) -> Seq<char> {
    json_head(cmd, text) + seq![',', '"', 't', 'y', 'p', 'e', 'N', 'a', 'm', 'e', '"', ':']
        + quoted(type_token) + seq!['}']
}

impl LSPrintReq {
    /// Builds a `print` request, encoding the code as base64.
    pub fn new(code: &str, type_token: &str) -> (r: LSPrintReq)
        ensures
            r.cmd@ == seq!['p', 'r', 'i', 'n', 't'],
            r.text@ == base64_of(code.spec_bytes()),
            r.type_token@ == type_token@,
    {
        let cmd = "print";
        proof {
            reveal_strlit("print");
            assert(cmd@ =~= seq!['p', 'r', 'i', 'n', 't']);
        }
        LSPrintReq {
            cmd: cmd.to_owned(),
            text: b64_encode_str(code),
            type_token: type_token.to_owned(),
        }
    }

    /// Writes the request as its JSON wire form.
    pub fn to_json(&self) -> (r: String)
        ensures
            r@ == lsprint_json(self.cmd@, self.text@, self.type_token@),
    {
        let mut out: Vec<char> = Vec::new();
        push_json_head(&mut out, self.cmd.as_str(), self.text.as_str());
        push_str_chars(&mut out, ",\"typeName\":");
        proof {
            reveal_strlit(",\"typeName\":");
            assert(",\"typeName\":"@ =~= seq![
                ',',
                '"',
                't',
                'y',
                'p',
                'e',
                'N',
                'a',
                'm',
                'e',
                '"',
                ':',
            ]);
        }
        quote_into(&mut out, self.type_token.as_str());
        out.push('}');
        proof {
            assert(out@ =~= lsprint_json(self.cmd@, self.text@, self.type_token@));
        }
        chars_to_string(&out)
    }
}

/// The request for the `check` command: the completed text plus the
/// original it is checked against.
pub struct LSCheckReq {
    pub cmd: String,
    pub text: String,
    pub original: String,
}

/// The wire form of an [`LSCheckReq`].
pub open spec fn lscheck_json(cmd: Seq<char>, text: Seq<char>, original: Seq<char>) -> Seq<char> {
    json_head(cmd, text) + seq![',', '"', 'o', 'r', 'i', 'g', 'i', 'n', 'a', 'l', '"', ':']
        + quoted(original) + seq!['}']
}

impl LSCheckReq {
    /// Builds a `check` request, encoding both texts as base64.
    pub fn new(original: &str, completed: &str) -> (r: LSCheckReq)
        ensures
            r.cmd@ == seq!['c', 'h', 'e', 'c', 'k'],
            r.text@ == base64_of(completed.spec_bytes()),
            r.original@ == base64_of(original.spec_bytes()),
    {
        let cmd = "check";
        proof {
            reveal_strlit("check");
            assert(cmd@ =~= seq!['c', 'h', 'e', 'c', 'k']);
        }
        LSCheckReq {
            cmd: cmd.to_owned(),
            text: b64_encode_str(completed),
            original: b64_encode_str(original),
        }
    }

    /// Writes the request as its JSON wire form.
    pub fn to_json(&self) -> (r: String)
        ensures
            r@ == lscheck_json(self.cmd@, self.text@, self.original@),
    {
        let mut out: Vec<char> = Vec::new();
        push_json_head(&mut out, self.cmd.as_str(), self.text.as_str());
        push_str_chars(&mut out, ",\"original\":");
        proof {
            reveal_strlit(",\"original\":");
            assert(",\"original\":"@ =~= seq![
                ',',
                '"',
                'o',
                'r',
                'i',
                'g',
                'i',
                'n',
                'a',
                'l',
                '"',
                ':',
            ]);
        }
        quote_into(&mut out, self.original.as_str());
        out.push('}');
        proof {
            assert(out@ =~= lscheck_json(self.cmd@, self.text@, self.original@));
        }
        chars_to_string(&out)
    }
}

/// The request for the `weave` command: the original, the nettle whose
/// types are transplanted, and the nettle's level offset.
pub struct LSWeaveReq {
    pub cmd: String,
    pub text: String,
    pub nettle: String,
    pub level: usize,
}

/// The wire form of an [`LSWeaveReq`]; the level is written in decimal.
pub open spec fn lsweave_json(
    cmd: Seq<char>,
    text: Seq<char>,
    nettle: Seq<char>,
    level: nat,
) -> Seq<char> {
    json_head(cmd, text) + seq![',', '"', 'n', 'e', 't', 't', 'l', 'e', '"', ':'] + quoted(nettle)
        + seq![',', '"', 'l', 'e', 'v', 'e', 'l', '"', ':'] + crate::strutil::dec_chars(level)
        + seq!['}']
}

impl LSWeaveReq {
    /// Builds a `weave` request, encoding both texts as base64.
    pub fn new(original: &str, nettle: &str, level: usize) -> (r: LSWeaveReq)
        ensures
            r.cmd@ == seq!['w', 'e', 'a', 'v', 'e'],
            r.text@ == base64_of(original.spec_bytes()),
            r.nettle@ == base64_of(nettle.spec_bytes()),
            r.level == level,
    {
        let cmd = "weave";
        proof {
            reveal_strlit("weave");
            assert(cmd@ =~= seq!['w', 'e', 'a', 'v', 'e']);
        }
        LSWeaveReq {
            cmd: cmd.to_owned(),
            text: b64_encode_str(original),
            nettle: b64_encode_str(nettle),
            level,
        }
    }

    /// Writes the request as its JSON wire form.
    pub fn to_json(&self) -> (r: String)
        ensures
            r@ == lsweave_json(self.cmd@, self.text@, self.nettle@, self.level as nat),
    {
        let mut out: Vec<char> = Vec::new();
        push_json_head(&mut out, self.cmd.as_str(), self.text.as_str());
        push_str_chars(&mut out, ",\"nettle\":");
        proof {
            reveal_strlit(",\"nettle\":");
            assert(",\"nettle\":"@ =~= seq![',', '"', 'n', 'e', 't', 't', 'l', 'e', '"', ':']);
        }
        quote_into(&mut out, self.nettle.as_str());
        push_str_chars(&mut out, ",\"level\":");
        proof {
            reveal_strlit(",\"level\":");
            assert(",\"level\":"@ =~= seq![',', '"', 'l', 'e', 'v', 'e', 'l', '"', ':']);
        }
        let digits = crate::strutil::usize_dec_chars(self.level);
        crate::strutil::push_chars(&mut out, &digits);
        out.push('}');
        proof {
            assert(out@ =~= lsweave_json(self.cmd@, self.text@, self.nettle@, self.level as nat));
        }
        chars_to_string(&out)
    }
}

/// The request for the `usages` command: the outer block and the inner
/// block whose call sites are wanted.
pub struct LSUsagesReq {
    pub cmd: String,
    pub text: String,
    pub inner_block: String,
}

/// The wire form of an [`LSUsagesReq`]; the inner block travels as `innerBlock`.
pub open spec fn lsusages_json(cmd: Seq<char>, text: Seq<char>, inner: Seq<char>) -> Seq<char> {
    json_head(cmd, text) + seq![',', '"', 'i', 'n', 'n', 'e', 'r', 'B', 'l', 'o', 'c', 'k', '"', ':']
        + quoted(inner) + seq!['}']
}

impl LSUsagesReq {
    /// Builds a `usages` request, encoding both blocks as base64.
    pub fn new(outer_block: &str, inner_block: &str) -> (r: LSUsagesReq)
        ensures
            r.cmd@ == seq!['u', 's', 'a', 'g', 'e', 's'],
            r.text@ == base64_of(outer_block.spec_bytes()),
            r.inner_block@ == base64_of(inner_block.spec_bytes()),
    {
        let cmd = "usages";
        proof {
            reveal_strlit("usages");
            assert(cmd@ =~= seq!['u', 's', 'a', 'g', 'e', 's']);
        }
        LSUsagesReq {
            cmd: cmd.to_owned(),
            text: b64_encode_str(outer_block),
            inner_block: b64_encode_str(inner_block),
        }
    }

    /// Writes the request as its JSON wire form.
    pub fn to_json(&self) -> (r: String)
        ensures
            r@ == lsusages_json(self.cmd@, self.text@, self.inner_block@),
    {
        let mut out: Vec<char> = Vec::new();
        push_json_head(&mut out, self.cmd.as_str(), self.text.as_str());
        push_str_chars(&mut out, ",\"innerBlock\":");
        proof {
            reveal_strlit(",\"innerBlock\":");
            assert(",\"innerBlock\":"@ =~= seq![
                ',',
                '"',
                'i',
                'n',
                'n',
                'e',
                'r',
                'B',
                'l',
                'o',
                'c',
                'k',
                '"',
                ':',
            ]);
        }
        quote_into(&mut out, self.inner_block.as_str());
        out.push('}');
        proof {
            assert(out@ =~= lsusages_json(self.cmd@, self.text@, self.inner_block@));
        }
        chars_to_string(&out)
    }
}

/// The typed command surface over the out-of-process analyzer.
///
/// Implementations drive one analyzer process; the pipeline only sees
/// this surface. `weave` is, from the caller's viewpoint, a function of
/// its arguments — `weave_spec` names that function, and the method's
/// contract ties the returned text to it. The other commands promise
/// nothing about their results.
pub trait LangServerCommands {
    /// What `weave` returns for given texts and nettle level.
    spec fn weave_spec(&self, original: Seq<char>, nettle: Seq<char>, level: nat) -> Seq<char>;

    /// Pretty-prints the code, writing the hole token into every
    /// annotation slot of the requested categories that has no type.
    fn pretty_print(&self, code: &str, type_token: &str, types: &Vec<AnnotateType>) -> Result<
        String,
        LangServerError,
    >;

    /// Decomposes the code into its block tree.
    fn to_tree(&self, code: &str) -> Result<CodeBlockTree, LangServerError>;

    /// Replaces the bodies of first-level nested constructs with stubs.
    fn stub(&self, code: &str) -> Result<String, LangServerError>;

    /// Compares a candidate against the original, reporting problems and a score.
    fn check_complete(&self, original: &str, completed: &str) -> Result<
        (Vec<CheckProblem>, u16),
        LangServerError,
    >;

    /// Transplants the type annotations of `nettle` into `original`;
    /// `level` is the nettle's offset relative to the woven text.
    fn weave(&self, original: &str, nettle: &str, level: usize) -> (r: Result<
        String,
        LangServerError,
    >)
        ensures
            r matches Ok(s) ==> s@ == self.weave_spec(original@, nettle@, level as nat),
    ;

    /// Extracts the call sites of `inner_block` inside `outer_block`,
    /// returning the snippet and the number of usages found.
    fn usages(&self, outer_block: &str, inner_block: &str) -> Result<
        (String, usize),
        LangServerError,
    >;
}

/// The verdict the `typecheck` command's answer carries: the code
/// type-checks exactly when the analyzer counted no errors.
pub fn type_check_verdict(errors: usize) -> (r: bool)
    ensures
        r == (errors == 0),
{
    errors == 0
}

/// Lifecycle and whole-file operations of one language's analyzer.
pub trait LangServer: LangServerCommands + Sized {
    /// Spawns the analyzer found at `path` and connects to it.
    fn make(path: &str) -> Result<Self, LangServerError>;

    /// Type-checks the code; true means no errors.
    fn type_check(&self, code: &str) -> Result<bool, LangServerError>;

    /// The language's catch-all type, such as `any`.
    fn any_type(&self) -> String;
}

} // verus!
