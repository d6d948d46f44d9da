//! Renderer-wide options and the choices made from command-line flags.
use vstd::prelude::*;

verus! {

/// Options given to the renderer.
#[derive(Clone, Debug)]
pub struct Options {
    /// Number of threads used for rendering.
    pub num_threads: u32,
    /// Whether quality settings are reduced to render more quickly.
    pub quick_render: bool,
    /// Whether text output other than errors is suppressed.
    pub quiet: bool,
    /// Whether detailed logging is printed.
    pub verbose: bool,
    /// The file the final image is written to; empty when not given.
    pub image_file: String,
}

impl Default for Options {
    /// One thread, full quality, verbose, no image file.
    fn default() -> (o: Options)
        ensures
            o.num_threads == 1,
            !o.quick_render,
            !o.quiet,
            o.verbose,
            o.image_file@ == Seq::<char>::empty(),
    {
        Options {
            num_threads: 1,
            quick_render: false,
            quiet: false,
            verbose: true,
            image_file: String::new(),
        }
    }
}

impl Options {
    /// The options given by command-line flags: one thread and no image file unless given.
    pub fn from_flags(
        num_threads: Option<u32>,
        quick_render: bool,
        quiet: bool,
        verbose: bool,
        image_file: Option<String>,
    ) -> (o: Options)
        ensures
            o.num_threads == (match num_threads {
                Some(n) => n,
                None => 1,
            }),
            o.quick_render == quick_render,
            o.quiet == quiet,
            o.verbose == verbose,
            o.image_file@ == (match image_file {
                Some(f) => f@,
                None => Seq::<char>::empty(),
            }),
    {
        Options {
            num_threads: match num_threads {
                Some(n) => n,
                None => 1,
            },
            quick_render,
            quiet,
            verbose,
            image_file: match image_file {
                Some(f) => f,
                None => String::new(),
            },
        }
    }
}

/// How much the program logs.
#[derive(Clone, Copy, Debug, PartialEq, Eq, Structural)]
pub enum LogLevel {
    /// Debugging output and everything below.
    Debug,
    /// Informational output, warnings and errors.
    Info,
    /// Warnings and errors only.
    Warn,
}

/// The log level chosen by the `verbose` and `quiet` flags: verbose wins over quiet.
pub fn log_level(verbose: bool, quiet: bool) -> (l: LogLevel)
    ensures
        l == (if verbose {
            LogLevel::Debug
        } else if quiet {
            LogLevel::Warn
        } else {
            LogLevel::Info
        }),
{
    if verbose {
        LogLevel::Debug
    } else if quiet {
        LogLevel::Warn
    } else {
        LogLevel::Info
    }
}

} // verus!
