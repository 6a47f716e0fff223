//! What a run over several sources decides: which mode the counts select,
//! whether headers are shown, the header that precedes each source, and whether
//! the run as a whole succeeded.

use vstd::prelude::*;
use crate::extract::Mode;
use crate::number::{NumError, count_of, trimmed, parse_num};
use crate::window::NEWLINE;

verus! {

/// When headers are shown.
#[derive(Debug, Clone, Copy, PartialEq, Eq, Structural)]
pub enum HeaderPolicy {
    Always,
    Never,
    /// Only when the run has more than one source.
    Default,
}

/// The policy that the flags give: verbose wins over quiet.
pub fn header_policy(quiet: bool, verbose: bool) -> (r: HeaderPolicy)
    ensures
        r == if verbose {
            HeaderPolicy::Always
        } else if quiet {
            HeaderPolicy::Never
        } else {
            HeaderPolicy::Default
        },
{
    if verbose {
        HeaderPolicy::Always
    } else if quiet {
        HeaderPolicy::Never
    } else {
        HeaderPolicy::Default
    }
}

pub open spec fn shows_headers_spec(policy: HeaderPolicy, n_sources: nat) -> bool {
    match policy {
        HeaderPolicy::Always => true,
        HeaderPolicy::Never => false,
        HeaderPolicy::Default => n_sources > 1,
    }
}

/// Whether a run over `n_sources` sources shows headers.
pub fn shows_headers(policy: HeaderPolicy, n_sources: usize) -> (r: bool)
    ensures
        r == shows_headers_spec(policy, n_sources as nat),
{
    match policy {
        HeaderPolicy::Always => true,
        HeaderPolicy::Never => false,
        HeaderPolicy::Default => n_sources > 1,
    }
}

/// `==> name <==` and a linefeed, after a blank line unless it is the first header.
pub open spec fn header_text(name: Seq<u8>, after_first: bool) -> Seq<u8> {
    (if after_first {
        seq![NEWLINE]
    } else {
        Seq::empty()
    }) + seq![0x3du8, 0x3d, 0x3e, 0x20] + name + seq![0x20u8, 0x3c, 0x3d, 0x3d, NEWLINE]
}

/// The mode that the counts given for bytes and for lines select: bytes where
/// given, else lines where given, else the first ten lines.
pub open spec fn mode_of(bytes: Option<Seq<char>>, lines: Option<Seq<char>>) -> Result<Mode, NumError> {
    match bytes {
        Some(b) => match count_of(trimmed(b)) {
            Ok((n, first)) => Ok(Mode::Bytes(n, first)),
            Err(e) => Err(e),
        },
        None => match lines {
            Some(l) => match count_of(trimmed(l)) {
                Ok((n, first)) => Ok(Mode::Lines(n, first)),
                Err(e) => Err(e),
            },
            None => Ok(Mode::Lines(10, true)),
        },
    }
}

/// Reads the counts given for bytes and for lines into a mode.
pub fn select_mode(bytes: Option<&str>, lines: Option<&str>) -> (r: Result<Mode, NumError>)
    ensures
        r == mode_of(
            match bytes {
                Some(b) => Some(b@),
                None => None,
            },
            match lines {
                Some(l) => Some(l@),
                None => None,
            },
        ),
{
    match bytes {
        Some(b) => match parse_num(b) {
            Ok((n, first)) => Ok(Mode::Bytes(n, first)),
            Err(e) => Err(e),
        },
        None => match lines {
            Some(l) => match parse_num(l) {
                Ok((n, first)) => Ok(Mode::Lines(n, first)),
                Err(e) => Err(e),
            },
            None => Ok(Mode::Lines(10, true)),
        },
    }
}

/// The name shown for the default input.
pub open spec fn standard_input_name() -> Seq<u8> {
    seq![0x73u8, 0x74, 0x61, 0x6e, 0x64, 0x61, 0x72, 0x64, 0x20, 0x69, 0x6e, 0x70, 0x75, 0x74]
}

/// Whether a source argument names the default input.
pub fn is_default_input(arg: &[u8]) -> (r: bool)
    ensures
        r == (arg@ == seq![0x2du8]),
{
    if arg.len() == 1 && arg[0] == 0x2d {
        assert(arg@ =~= seq![0x2du8]);
        true
    } else {
        false
    }
}

/// The name under which a source is shown in its header.
pub fn display_name(arg: &[u8]) -> (r: Vec<u8>)
    ensures
        r@ == if arg@ == seq![0x2du8] {
            standard_input_name()
        } else {
            arg@
        },
{
    if is_default_input(arg) {
        let r = vec![0x73, 0x74, 0x61, 0x6e, 0x64, 0x61, 0x72, 0x64, 0x20, 0x69, 0x6e, 0x70, 0x75, 0x74];
        assert(r@ =~= standard_input_name());
        r
    } else {
        vstd::slice::slice_to_vec(arg)
    }
}

/// The state of a run over its sources, which are handled one after another.
pub struct Session {
    mode: Mode,
    show: bool,
    previous_printed: bool,
    failed: bool,
}

impl Session {
    pub closed spec fn mode_spec(&self) -> Mode {
        self.mode
    }

    /// Whether this run shows headers.
    pub closed spec fn shows(&self) -> bool {
        self.show
    }

    /// Whether a header has been written yet.
    pub closed spec fn printed(&self) -> bool {
        self.previous_printed
    }

    /// Whether some source has failed.
    pub closed spec fn has_failed(&self) -> bool {
        self.failed
    }

    pub fn new(mode: Mode, policy: HeaderPolicy, n_sources: usize) -> (r: Self)
        ensures
            r.mode_spec() == mode,
            r.shows() == shows_headers_spec(policy, n_sources as nat),
            !r.printed(),
            !r.has_failed(),
    {
        Session {
            mode,
            show: shows_headers(policy, n_sources),
            previous_printed: false,
            failed: false,
        }
    }

    /// The mode that each source is read in.
    pub fn mode(&self) -> (r: Mode)
        ensures
            r == self.mode_spec(),
    {
        self.mode
    }

    /// The header to write before the output of the source shown as `name`:
    /// nothing where headers are not shown.
    pub fn header(&mut self, name: &[u8]) -> (r: Vec<u8>)
        ensures
            r@ == if old(self).shows() {
                header_text(name@, old(self).printed())
            } else {
                Seq::<u8>::empty()
            },
            final(self).printed() == (old(self).printed() || old(self).shows()),
            final(self).shows() == old(self).shows(),
            final(self).has_failed() == old(self).has_failed(),
            final(self).mode_spec() == old(self).mode_spec(),
    {
        let mut r: Vec<u8> = Vec::new();
        if !self.show {
            return r;
        }
        if self.previous_printed {
            r.push(NEWLINE);
        }
        let mut open = vec![0x3d, 0x3d, 0x3e, 0x20];
        r.append(&mut open);
        let mut shown = vstd::slice::slice_to_vec(name);
        r.append(&mut shown);
        let mut close = vec![0x20, 0x3c, 0x3d, 0x3d, NEWLINE];
        r.append(&mut close);
        assert(r@ =~= header_text(name@, self.previous_printed));
        self.previous_printed = true;
        r
    }

    /// Notes that a source could not be opened or read; the run goes on.
    pub fn record_failure(&mut self)
        ensures
            final(self).has_failed(),
            final(self).printed() == old(self).printed(),
            final(self).shows() == old(self).shows(),
            final(self).mode_spec() == old(self).mode_spec(),
    {
        self.failed = true;
    }

    /// Whether every source so far was handled without error.
    pub fn succeeded(&self) -> (r: bool)
        ensures
            r == !self.has_failed(),
    {
        !self.failed
    }
}

} // verus!
