//! Clipboard delivery: natively, or through one of two helper programs.
use vstd::prelude::*;
use crate::cli::part_views;
use crate::error::{owned, Error};

verus! {

/// The next step of a delivery.
#[derive(Debug)]
pub enum CopyStep {
    Done,
    /// Pipe the picture to this program.
    Pipe(Vec<String>),
    Failed(Error),
}

/// The helper programs, in the order in which they are tried.
pub open spec fn helper_command(i: int) -> Option<Seq<Seq<char>>> {
    if i == 0 {
        Some(seq!["wl-copy"@, "--type"@, "image/png"@])
    } else if i == 1 {
        Some(seq!["xclip"@, "-selection"@, "clipboard"@, "-t"@, "image/png"@])
    } else {
        None
    }
}

/// What follows an attempt: nothing after a success, else the next helper,
/// else the failure.
pub open spec fn step_is(s: CopyStep, copied: bool, tried: int) -> bool {
    if copied {
        s is Done
    } else {
        match helper_command(tried) {
            Some(c) => s is Pipe && part_views(s->Pipe_0@) == c,
            None => s is Failed && s->Failed_0 is Clipboard && s->Failed_0->Clipboard_0@
                == "compositor lacks data-control and neither wl-copy nor xclip worked"@,
        }
    }
}

fn helper(i: usize) -> (r: Option<Vec<String>>)
    ensures
        match r {
            Some(c) => helper_command(i as int) == Some(part_views(c@)),
            None => helper_command(i as int) is None,
        },
{
    let mut words: Vec<String> = Vec::new();
    if i == 0 {
        words.push(owned("wl-copy"));
        words.push(owned("--type"));
        words.push(owned("image/png"));
        assert(part_views(words@) =~= seq!["wl-copy"@, "--type"@, "image/png"@]);
        Some(words)
    } else if i == 1 {
        words.push(owned("xclip"));
        words.push(owned("-selection"));
        words.push(owned("clipboard"));
        words.push(owned("-t"));
        words.push(owned("image/png"));
        assert(part_views(words@) =~= seq![
            "xclip"@,
            "-selection"@,
            "clipboard"@,
            "-t"@,
            "image/png"@,
        ]);
        Some(words)
    } else {
        None
    }
}

/// What to do after the native delivery and `tried` helpers, the last of which
/// succeeded or not.
pub fn copy_png(copied: bool, tried: usize) -> (r: CopyStep)
    ensures
        step_is(r, copied, tried as int),
{
    if copied {
        return CopyStep::Done;
    }
    match helper(tried) {
        Some(c) => CopyStep::Pipe(c),
        None => CopyStep::Failed(
            Error::Clipboard(
                owned("compositor lacks data-control and neither wl-copy nor xclip worked"),
            ),
        ),
    }
}

/// The failure of a helper that ended with the given status.
pub fn pipe_failure(program: &str, status: &str) -> (r: Error)
    ensures
        r is Clipboard,
        r->Clipboard_0@ == program@ + " exited with "@ + status@,
{
    let mut m = owned(program);
    m.append(" exited with ");
    m.append(status);
    Error::Clipboard(m)
}

/// A delivery ends after at most two helpers.
pub proof fn law_delivery_ends(s: CopyStep, copied: bool, tried: int)
    requires
        tried >= 2,
        step_is(s, copied, tried),
    ensures
        !(s is Pipe),
{
}

/// A picture that was copied is done. Else `wl-copy` is tried first, then
/// `xclip`, each for a PNG picture, and then the copy has failed.
pub proof fn law_helpers_are_tried_in_turn(s: CopyStep, copied: bool, tried: int)
    requires
        step_is(s, copied, tried),
        tried >= 0,
    ensures
        copied <==> s is Done,
        !copied && tried == 0 ==> s is Pipe && s->Pipe_0@[0]@ == "wl-copy"@ && s->Pipe_0@.last()@
            == "image/png"@,
        !copied && tried == 1 ==> s is Pipe && s->Pipe_0@[0]@ == "xclip"@ && s->Pipe_0@.last()@
            == "image/png"@,
        !copied && tried >= 2 ==> s is Failed,
{
    if s is Pipe {
        let v = part_views(s->Pipe_0@);
        let n = s->Pipe_0@.len() - 1;
        assert(v.len() == s->Pipe_0@.len());
        assert(v[0] == s->Pipe_0@[0]@);
        assert(v[n] == s->Pipe_0@[n]@);
    }
}

} // verus!
