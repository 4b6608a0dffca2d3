//! fzf: the picker command that presents choices, and the reading of what
//! the user picked.
use vstd::prelude::*;
use vstd::utf8::encode_utf8;

use crate::backend::{lossy_text, utf8_lossy, CommandInput, CommandOutput, CommandRequest, InputSpec, RequestSpec};
use crate::text::{chars_of, concat2, str_views, trim_pat, trimmed, CharPat};

verus! {

/// Errors produced while running `fzf`.
#[derive(Debug, Clone, PartialEq, Eq)]
pub enum FzfError {
    /// The `fzf` binary could not be found.
    MissingBinary,
    /// Selection was cancelled by the user.
    Cancelled,
    /// An IO operation failed while communicating with `fzf`.
    Io(String),
    /// The `fzf` process exited with an unexpected error.
    Command(String),
}

/// The message of an [`FzfError`].
pub open spec fn fzf_error_text(e: FzfError) -> Seq<char> {
    match e {
        FzfError::MissingBinary => "fzf is not installed or not available in PATH"@,
        FzfError::Cancelled => "fzf selection was cancelled"@,
        FzfError::Io(m) => "IO error: "@ + m@,
        FzfError::Command(m) => m@,
    }
}

impl FzfError {
    /// The error message.
    pub fn message(&self) -> (s: String)
        ensures
            s@ == fzf_error_text(*self),
    {
        match self {
            FzfError::MissingBinary => "fzf is not installed or not available in PATH".to_owned(),
            FzfError::Cancelled => "fzf selection was cancelled".to_owned(),
            FzfError::Io(m) => concat2("IO error: ", m.as_str()),
            FzfError::Command(m) => m.clone(),
        }
    }
}

/// The bytes fzf reads: each item in UTF-8 followed by a newline.
pub open spec fn item_lines(items: Seq<Seq<char>>) -> Seq<u8>
    decreases items.len(),
{
    if items.len() == 0 {
        seq![]
    } else {
        item_lines(items.drop_last()) + encode_utf8(items.last()) + seq![10u8]
    }
}

/// The fzf invocation that presents `items`.
pub open spec fn select_spec(items: Seq<Seq<char>>, prompt: Seq<char>) -> RequestSpec {
    RequestSpec { program: "fzf"@, args: seq!["--prompt"@, prompt], stdin: InputSpec::Bytes(item_lines(items)) }
}

/// The `fzf` command that presents `items`, one per line, under `prompt`.
/// The caller runs it with stdout captured and hands the output to
/// [`selection`].
pub fn select_request(items: &[String], prompt: &str) -> (r: CommandRequest)
    ensures
        r@ == select_spec(str_views(items@), prompt@),
{
    let ghost all = str_views(items@);
    let mut bytes: Vec<u8> = Vec::new();
    let mut i: usize = 0;
    assert(all.take(0) =~= Seq::<Seq<char>>::empty());
    while i < items.len()
        invariant
            all == str_views(items@),
            i <= items@.len(),
            bytes@ == item_lines(all.take(i as int)),
        decreases items@.len() - i,
    {
        let b = items[i].as_str().as_bytes();
        let ghost before = bytes@;
        let mut k: usize = 0;
        while k < b.len()
            invariant
                k <= b@.len(),
                bytes@ == before + b@.take(k as int),
            decreases b@.len() - k,
        {
            bytes.push(b[k]);
            assert(b@.take(k + 1) =~= b@.take(k as int).push(b@[k as int]));
            k = k + 1;
        }
        bytes.push(10u8);
        proof {
            assert(b@.take(b@.len() as int) =~= b@);
            assert(all.take(i + 1).drop_last() =~= all.take(i as int));
            assert(all.take(i + 1).last() == items@[i as int]@);
            assert(bytes@ =~= item_lines(all.take(i as int)) + encode_utf8(items@[i as int]@) + seq![10u8]);
        }
        i = i + 1;
    }
    assert(all.take(items@.len() as int) =~= all);
    let r = CommandRequest::new("fzf").arg("--prompt").arg(prompt).stdin(CommandInput::Bytes(bytes));
    assert(r@.args =~= seq!["--prompt"@, prompt@]);
    r
}

/// What fzf's output means. The selection is stdout without surrounding
/// newlines. An empty selection is no choice, whether fzf succeeded or not
/// (it exits unsuccessfully when cancelled); a failed run that printed
/// something is an error.
pub open spec fn selection_of(success: bool, status: Seq<char>, stdout: Seq<char>) -> Result<Option<Seq<char>>, Seq<char>> {
    let picked = trim_pat(stdout, CharPat::Exactly('\n'));
    if picked.len() == 0 {
        Ok(None)
    } else if success {
        Ok(Some(picked))
    } else {
        Err("fzf exited with status "@ + status)
    }
}

/// The item that was picked, read from the output of [`select_request`].
pub fn selection(output: &CommandOutput) -> (r: Result<Option<String>, FzfError>)
    ensures
        match selection_of(output.status.spec_success(), output.status.description@, utf8_lossy(output.stdout@)) {
            Ok(None) => r matches Ok(None),
            Ok(Some(s)) => r matches Ok(Some(x)) && x@ == s,
            Err(m) => r matches Err(FzfError::Command(x)) && x@ == m,
        },
{
    let text = lossy_text(output.stdout.as_slice());
    let v = chars_of(text.as_str());
    let picked = trimmed(v.as_slice(), CharPat::Exactly('\n'));
    if picked.len() == 0 {
        Ok(None)
    } else if output.status.success() {
        Ok(Some(crate::text::string_of(picked.as_slice())))
    } else {
        Err(FzfError::Command(concat2("fzf exited with status ", output.status.description.as_str())))
    }
}

} // verus!
