//! Settings shared by the commands: logging, the choice of fit and video
//! encoder, the camera to open and the command-line settings of the helper
//! commands.
use vstd::prelude::*;
use crate::text::string_of;
use crate::fourcc::FourCC;

verus! {

/// `info`.
pub open spec fn info_level() -> Seq<char> {
    seq!['i', 'n', 'f', 'o']
}

fn info_string() -> (s: String)
    ensures
        s@ == info_level(),
{
    let cs: [char; 4] = ['i', 'n', 'f', 'o'];
    let s = string_of(&cs);
    assert(cs@ =~= info_level());
    s
}

/// How the commands log.
#[derive(Clone, Debug)]
pub struct LogConfig {
    /// Human-readable console output; JSON lines otherwise.
    pub log_pretty: bool,
    /// A tracing filter such as `info` or `trainbot=trace`.
    pub log_level: String,
}

impl Default for LogConfig {
    /// JSON output at level `info`.
    fn default() -> (c: LogConfig)
        ensures
            !c.log_pretty,
            c.log_level@ == info_level(),
    {
        LogConfig { log_pretty: false, log_level: info_string() }
    }
}

impl LogConfig {
    /// The filter the logger is set up with: `info` when none is given.
    pub fn effective_level(&self) -> (s: String)
        ensures
            s@ == (if self.log_level@.len() == 0 {
                info_level()
            } else {
                self.log_level@
            }),
    {
        if self.log_level.as_str().is_empty() {
            info_string()
        } else {
            self.log_level.clone()
        }
    }
}

/// The settings of the cleanup command.
#[derive(Clone, Debug)]
pub struct CleanupArgs {
    pub log_pretty: bool,
    pub log_level: String,
    /// Directory the data is kept in.
    pub data_dir: String,
}

impl CleanupArgs {
    /// The logging part of the settings.
    pub fn log_config(&self) -> (c: LogConfig)
        ensures
            c.log_pretty == self.log_pretty,
            c.log_level@ == self.log_level@,
    {
        LogConfig { log_pretty: self.log_pretty, log_level: self.log_level.clone() }
    }
}

/// The settings of the helper that shows the camera picture to find the crop
/// rectangle.
#[derive(Clone, Debug)]
pub struct ConfighelperArgs {
    pub log_pretty: bool,
    pub log_level: String,
    /// Accepted and ignored: the page is always built in.
    pub live_reload: bool,
    /// Address and port to listen on.
    pub listen_addr: String,
    /// A video device file, a video file, or `picam3`.
    pub input: String,
    pub camera_w: u32,
    pub camera_h: u32,
    /// Turn the picture by 180 degrees (Pi camera only).
    pub rotate_180: bool,
    /// Only print the cameras found, and exit.
    pub probe_only: bool,
}

impl ConfighelperArgs {
    /// The logging part of the settings.
    pub fn log_config(&self) -> (c: LogConfig)
        ensures
            c.log_pretty == self.log_pretty,
            c.log_level@ == self.log_level@,
    {
        LogConfig { log_pretty: self.log_pretty, log_level: self.log_level.clone() }
    }
}

/// A camera setting: device file, pixel format and frame size.
#[derive(Clone, Debug)]
pub struct CamConfig {
    pub device: String,
    pub fourcc: FourCC,
    pub width: u32,
    pub height: u32,
}

/// Which robust fit turns the measured offsets into a motion model.
#[derive(Clone, Copy, Debug, PartialEq, Eq, Structural)]
pub enum FitMethod {
    /// Iterative least squares with outlier rejection, seeded by the median.
    Ols,
    /// Random sample consensus with a fixed seed.
    Ransac,
}

impl Default for FitMethod {
    fn default() -> (m: FitMethod)
        ensures
            m == FitMethod::Ols,
    {
        FitMethod::Ols
    }
}

/// `ols`.
pub open spec fn ols_name() -> Seq<char> {
    seq!['o', 'l', 's']
}

/// `ransac`.
pub open spec fn ransac_name() -> Seq<char> {
    seq!['r', 'a', 'n', 's', 'a', 'c']
}

/// The fit method a name on the command line stands for.
pub open spec fn fit_method_named(name: Seq<char>) -> Option<FitMethod> {
    if name == ols_name() {
        Some(FitMethod::Ols)
    } else if name == ransac_name() {
        Some(FitMethod::Ransac)
    } else {
        None
    }
}

/// Whether `s` equals the characters `lit`.
pub fn equals_chars(s: &Vec<char>, from: usize, lit: &[char]) -> (b: bool)
    requires
        from <= s@.len(),
    ensures
        b == (s@.skip(from as int) == lit@),
{
    if s.len() - from != lit.len() {
        assert(s@.skip(from as int).len() != lit@.len());
        return false;
    }
    let mut i: usize = 0;
    while i < lit.len()
        invariant
            from <= s@.len() <= usize::MAX,
            s@.len() - from == lit@.len(),
            i <= lit@.len(),
            forall|j: int| 0 <= j < i ==> s@[from + j] == lit@[j],
        decreases lit@.len() - i,
    {
        if s[from + i] != lit[i] {
            assert(s@.skip(from as int)[i as int] != lit@[i as int]);
            return false;
        }
        i = i + 1;
    }
    assert(s@.skip(from as int) =~= lit@);
    true
}

/// Whether `s` starts with the characters `lit`.
pub fn starts_with_chars(s: &Vec<char>, lit: &[char]) -> (b: bool)
    ensures
        b == (s@.len() >= lit@.len() && s@.take(lit@.len() as int) == lit@),
{
    if s.len() < lit.len() {
        return false;
    }
    let mut i: usize = 0;
    while i < lit.len()
        invariant
            s@.len() >= lit@.len(),
            i <= lit@.len(),
            forall|j: int| 0 <= j < i ==> s@[j] == lit@[j],
        decreases lit@.len() - i,
    {
        if s[i] != lit[i] {
            assert(s@.take(lit@.len() as int)[i as int] != lit@[i as int]);
            return false;
        }
        i = i + 1;
    }
    assert(s@.take(lit@.len() as int) =~= lit@);
    true
}

/// `--fit-method=`.
pub open spec fn fit_method_flag() -> Seq<char> {
    seq!['-', '-', 'f', 'i', 't', '-', 'm', 'e', 't', 'h', 'o', 'd', '=']
}

/// The value of the first `--fit-method=` argument, if any.
pub open spec fn first_fit_method_value(args: Seq<Seq<char>>) -> Option<Seq<char>>
    decreases args.len(),
{
    if args.len() == 0 {
        None
    } else if args[0].len() >= 13 && args[0].take(13) == fit_method_flag() {
        Some(args[0].skip(13))
    } else {
        first_fit_method_value(args.drop_first())
    }
}

/// A `--fit-method=` value that names no method.
#[derive(Clone, Debug)]
pub struct UnknownFitMethod {
    pub value: String,
}

pub open spec fn arg_views(args: Seq<String>) -> Seq<Seq<char>> {
    args.map_values(|a: String| a@)
}

/// The fit method the command-line arguments (after the program name) ask
/// for: the first `--fit-method=` argument decides, `ols` when there is none,
/// and an error naming the value when it is neither `ols` nor `ransac`.
pub fn fit_method_from_args(args: &[String]) -> (r: Result<FitMethod, UnknownFitMethod>)
    ensures
        match first_fit_method_value(arg_views(args@)) {
            None => r == Ok::<FitMethod, UnknownFitMethod>(FitMethod::Ols),
            Some(v) => match fit_method_named(v) {
                Some(m) => r == Ok::<FitMethod, UnknownFitMethod>(m),
                None => r is Err && r->Err_0.value@ == v,
            },
        },
{
    let flag: [char; 13] = ['-', '-', 'f', 'i', 't', '-', 'm', 'e', 't', 'h', 'o', 'd', '='];
    assert(flag@ =~= fit_method_flag());
    let ols: [char; 3] = ['o', 'l', 's'];
    assert(ols@ =~= ols_name());
    let ransac: [char; 6] = ['r', 'a', 'n', 's', 'a', 'c'];
    assert(ransac@ =~= ransac_name());
    let mut i: usize = 0;
    assert(arg_views(args@).skip(0) =~= arg_views(args@));
    while i < args.len()
        invariant
            i <= args@.len(),
            flag@ == fit_method_flag(),
            ols@ == ols_name(),
            ransac@ == ransac_name(),
            first_fit_method_value(arg_views(args@)) == first_fit_method_value(
                arg_views(args@).skip(i as int),
            ),
        decreases args@.len() - i,
    {
        let a = crate::text::chars_of(args[i].as_str());
        let ghost rest = arg_views(args@).skip(i as int);
        assert(rest[0] == a@);
        if starts_with_chars(&a, &flag) {
            let mut tail: Vec<char> = Vec::new();
            crate::text::push_range(&mut tail, &a, 13, a.len());
            assert(tail@ =~= a@.skip(13));
            let value = string_of(&tail);
            if equals_chars(&a, 13, &ols) {
                return Ok(FitMethod::Ols);
            }
            if equals_chars(&a, 13, &ransac) {
                return Ok(FitMethod::Ransac);
            }
            return Err(UnknownFitMethod { value });
        }
        assert(rest.drop_first() =~= arg_views(args@).skip(i + 1));
        i = i + 1;
    }
    Ok(FitMethod::Ols)
}

/// Which ffmpeg encoder makes the videos.
#[derive(Clone, Copy, Debug, PartialEq, Eq, Structural)]
pub enum Encoder {
    /// Software H.264, for fast CPUs.
    Libx264,
    /// The Raspberry Pi's hardware H.264 encoder.
    H264V4l2m2m,
}

impl Default for Encoder {
    fn default() -> (e: Encoder)
        ensures
            e == Encoder::Libx264,
    {
        Encoder::Libx264
    }
}

/// The encoder's name, as ffmpeg and the command line know it.
pub open spec fn encoder_name(e: Encoder) -> Seq<char> {
    match e {
        Encoder::Libx264 => seq!['l', 'i', 'b', 'x', '2', '6', '4'],
        Encoder::H264V4l2m2m => seq![
            'h', '2', '6', '4', '_', 'v', '4', 'l', '2', 'm', '2', 'm'
        ],
    }
}

impl Encoder {
    /// The encoder's name, as ffmpeg and the command line know it.
    pub fn name(self) -> (s: String)
        ensures
            s@ == encoder_name(self),
    {
        match self {
            Encoder::Libx264 => {
                let cs: [char; 7] = ['l', 'i', 'b', 'x', '2', '6', '4'];
                assert(cs@ =~= encoder_name(self));
                string_of(&cs)
            },
            Encoder::H264V4l2m2m => {
                let cs: [char; 12] = ['h', '2', '6', '4', '_', 'v', '4', 'l', '2', 'm', '2', 'm'];
                assert(cs@ =~= encoder_name(self));
                string_of(&cs)
            },
        }
    }
}

/// What became of one frame handed to the detector, for the metrics.
#[derive(Clone, Copy, Debug)]
pub struct FrameDispositionGuard {
    pub disposition: &'static str,
}

/// `unknown`.
pub open spec fn unknown_disposition() -> Seq<char> {
    seq!['u', 'n', 'k', 'n', 'o', 'w', 'n']
}

impl FrameDispositionGuard {
    /// A frame whose fate is not known yet.
    pub fn new() -> (g: FrameDispositionGuard)
        ensures
            g.disposition@ == unknown_disposition(),
    {
        let d = "unknown";
        proof {
            reveal_strlit("unknown");
        }
        assert(d@ =~= unknown_disposition());
        FrameDispositionGuard { disposition: d }
    }
}

} // verus!
