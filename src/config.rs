use vstd::prelude::*;

verus! {

/// How input lines are spread over workers.
#[derive(Clone, Copy, Debug, PartialEq, Eq, Structural)]
pub enum Mode {
    /// Round-robin: line `i` goes to worker `i % k`.
    Stripe,
    /// Contiguous runs of equal length, the last one possibly shorter.
    Chunk,
}

/// A configuration that the tool refuses before doing any work.
#[derive(Clone, Copy, Debug, PartialEq, Eq, Structural)]
pub enum ConfigError {
    /// The worker count is below one (or does not fit the machine).
    InvalidWorkerCount,
    /// The mode is neither `stripe` nor `chunk`.
    InvalidMode,
}

/// The name of the stripe mode.
pub open spec fn stripe_name() -> Seq<char> {
    seq!['s', 't', 'r', 'i', 'p', 'e']
}

/// The name of the chunk mode.
pub open spec fn chunk_name() -> Seq<char> {
    seq!['c', 'h', 'u', 'n', 'k']
}

impl Mode {
    /// The name under which the mode is written on the command line.
    pub open spec fn spec_name(self) -> Seq<char> {
        match self {
            Mode::Stripe => stripe_name(),
            Mode::Chunk => chunk_name(),
        }
    }

    /// The mode that `s` names, if any.
    pub open spec fn spec_parse(s: Seq<char>) -> Option<Mode> {
        if s == stripe_name() {
            Some(Mode::Stripe)
        } else if s == chunk_name() {
            Some(Mode::Chunk)
        } else {
            None
        }
    }

    /// The mode's name: `stripe` or `chunk`.
    pub fn name(&self) -> (r: &'static str)
        ensures
            r@ == self.spec_name(),
    {
        proof {
            reveal_strlit("stripe");
            reveal_strlit("chunk");
        }
        match self {
            Mode::Stripe => "stripe",
            Mode::Chunk => "chunk",
        }
    }

    /// Reads a mode from its name; any other text is an invalid mode.
    pub fn parse(s: &str) -> (r: Result<Mode, ConfigError>)
        ensures
            s@ == stripe_name() ==> r == Ok::<Mode, ConfigError>(Mode::Stripe),
            s@ == chunk_name() ==> r == Ok::<Mode, ConfigError>(Mode::Chunk),
            s@ != stripe_name() && s@ != chunk_name() ==> r == Err::<Mode, ConfigError>(
                ConfigError::InvalidMode,
            ),
    {
        proof {
            reveal_strlit("stripe");
            reveal_strlit("chunk");
        }
        assert("stripe"@ =~= stripe_name());
        assert("chunk"@ =~= chunk_name());
        let given = s.to_owned();
        let stripe = "stripe".to_owned();
        let chunk = "chunk".to_owned();
        if given == stripe {
            Ok(Mode::Stripe)
        } else if given == chunk {
            Ok(Mode::Chunk)
        } else {
            Err(ConfigError::InvalidMode)
        }
    }
}

/// What the error says; an invalid mode lists the valid ones.
pub open spec fn spec_message(e: ConfigError) -> Seq<char> {
    match e {
        ConfigError::InvalidWorkerCount => "threads must be > 0"@,
        ConfigError::InvalidMode => "valid modes are: stripe, chunk"@,
    }
}

impl ConfigError {
    /// The text shown to the user for this error.
    pub fn message(&self) -> (r: &'static str)
        ensures
            r@ == spec_message(*self),
    {
        match self {
            ConfigError::InvalidWorkerCount => "threads must be > 0",
            ConfigError::InvalidMode => "valid modes are: stripe, chunk",
        }
    }
}

/// Checks a requested worker count: it must be at least one.
pub fn worker_count(threads: i64) -> (r: Result<usize, ConfigError>)
    ensures
        1 <= threads <= usize::MAX ==> r == Ok::<usize, ConfigError>(threads as usize),
        threads < 1 || threads > usize::MAX ==> r == Err::<usize, ConfigError>(
            ConfigError::InvalidWorkerCount,
        ),
{
    if threads < 1 {
        Err(ConfigError::InvalidWorkerCount)
    } else if threads as u64 > usize::MAX as u64 {
        Err(ConfigError::InvalidWorkerCount)
    } else {
        Ok(threads as usize)
    }
}

/// The settings of one run, checked before any input is read.
#[derive(Clone, Copy, Debug, PartialEq, Eq, Structural)]
pub struct Config {
    /// How many workers to run; at least one.
    pub workers: usize,
    /// How lines are spread over the workers.
    pub mode: Mode,
    /// Whether the workers' output is thrown away instead of reported.
    pub silent: bool,
}

impl Config {
    /// A well-formed configuration has at least one worker.
    pub open spec fn wf(self) -> bool {
        self.workers >= 1
    }

    /// Checks the requested settings: the worker count first, then the mode's name.
    pub fn new(threads: i64, mode: &str, silent: bool) -> (r: Result<Config, ConfigError>)
        ensures
            (threads < 1 || threads > usize::MAX) ==> r == Err::<Config, ConfigError>(
                ConfigError::InvalidWorkerCount,
            ),
            1 <= threads <= usize::MAX && Mode::spec_parse(mode@) is None ==> r == Err::<
                Config,
                ConfigError,
            >(ConfigError::InvalidMode),
            1 <= threads <= usize::MAX && Mode::spec_parse(mode@) is Some ==> r == Ok::<
                Config,
                ConfigError,
            >(
                (Config {
                    workers: threads as usize,
                    mode: Mode::spec_parse(mode@)->Some_0,
                    silent,
                }),
            ),
            r matches Ok(c) ==> c.wf(),
    {
        let workers = match worker_count(threads) {
            Ok(n) => n,
            Err(e) => {
                return Err(e);
            },
        };
        match Mode::parse(mode) {
            Ok(m) => Ok(Config { workers, mode: m, silent }),
            Err(e) => Err(e),
        }
    }
}

} // verus!
