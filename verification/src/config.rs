//! The configuration of a run: from the command line, and whether it is usable.
use vstd::prelude::*;
use vstd::string::*;

use crate::model::{
    clone_texts, law_names_of_rules, named_rule, parse_keep_rule, ConfigRecord, KeepRule,
    KeepRuleRecord, OperationMode, RuleError, RunConfig, DEFAULT_CHECKPOINT_INTERVAL,
};
use crate::text::{chars_of, text_eq, text_of, text_option, texts};

verus! {

// ---------------------------------------------------------------------------
// Errors
// ---------------------------------------------------------------------------

/// Why there is no usable configuration.
#[derive(Debug, PartialEq, Eq)]
pub enum ConfigError {
    MissingValue { flag: String, binary: String },
    UnknownFlag { flag: String, binary: String },
    UnexpectedArgument { value: String, binary: String },
    MissingRoot { binary: String },
    ResumeWithoutOutput,
    UnsupportedKeepRule { name: String },
    MissingPreferPath,
    RootRequired,
    OutputRequired,
    RootDoesNotExist { path: String },
    RootIsNoDirectory { path: String },
    NoCheckpointInterval,
    PreferredRequired,
    PreferredDoesNotExist { path: String },
}

/// The contents of a [`ConfigError`].
pub enum Fault {
    MissingValue { flag: Seq<char>, binary: Seq<char> },
    UnknownFlag { flag: Seq<char>, binary: Seq<char> },
    UnexpectedArgument { value: Seq<char>, binary: Seq<char> },
    MissingRoot { binary: Seq<char> },
    ResumeWithoutOutput,
    UnsupportedKeepRule { name: Seq<char> },
    MissingPreferPath,
    RootRequired,
    OutputRequired,
    RootDoesNotExist { path: Seq<char> },
    RootIsNoDirectory { path: Seq<char> },
    NoCheckpointInterval,
    PreferredRequired,
    PreferredDoesNotExist { path: Seq<char> },
}

impl View for ConfigError {
    type V = Fault;

    open spec fn view(&self) -> Fault {
        match self {
            ConfigError::MissingValue { flag, binary } => Fault::MissingValue {
                flag: flag@,
                binary: binary@,
            },
            ConfigError::UnknownFlag { flag, binary } => Fault::UnknownFlag {
                flag: flag@,
                binary: binary@,
            },
            ConfigError::UnexpectedArgument { value, binary } => Fault::UnexpectedArgument {
                value: value@,
                binary: binary@,
            },
            ConfigError::MissingRoot { binary } => Fault::MissingRoot { binary: binary@ },
            ConfigError::ResumeWithoutOutput => Fault::ResumeWithoutOutput,
            ConfigError::UnsupportedKeepRule { name } => Fault::UnsupportedKeepRule {
                name: name@,
            },
            ConfigError::MissingPreferPath => Fault::MissingPreferPath,
            ConfigError::RootRequired => Fault::RootRequired,
            ConfigError::OutputRequired => Fault::OutputRequired,
            ConfigError::RootDoesNotExist { path } => Fault::RootDoesNotExist { path: path@ },
            ConfigError::RootIsNoDirectory { path } => Fault::RootIsNoDirectory { path: path@ },
            ConfigError::NoCheckpointInterval => Fault::NoCheckpointInterval,
            ConfigError::PreferredRequired => Fault::PreferredRequired,
            ConfigError::PreferredDoesNotExist { path } => Fault::PreferredDoesNotExist {
                path: path@,
            },
        }
    }
}

/// The help text.
pub open spec fn usage_text(binary: Seq<char>) -> Seq<char> {
    "Usage:\n  "@ + binary + " --path <directory> [options]\n  "@ + binary
        + " <directory> [options]\n\nOptions:\n  --apply                    Delete duplicate files after review\n  --dry-run                  Plan only (default)\n  --output-dir <dir>         Folder for reports and checkpoints\n  --resume                   Resume from an existing output directory\n  --keep <rule>              oldest-created | newest-modified | prefer-path\n  --prefer-path <dir>        Preferred directory for --keep prefer-path\n  --hash-all-files           Disable fast prefilter and hash every file\n  --include <text>           Only scan paths containing this text\n  --exclude <text>           Skip paths containing this text\n  --follow-symlinks          Follow symbolic links during traversal\n  --use-trash                Move deleted files to the system trash instead of permanent deletion\n  -h, --help                 Show help"@
}

/// The help text.
pub fn usage(binary: &str) -> (r: String)
    ensures
        r@ == usage_text(binary@),
{
    let mut t: String = "Usage:\n  ".to_string();
    t.append(binary);
    t.append(" --path <directory> [options]\n  ");
    t.append(binary);
    t.append(" <directory> [options]\n\nOptions:\n  --apply                    Delete duplicate files after review\n  --dry-run                  Plan only (default)\n  --output-dir <dir>         Folder for reports and checkpoints\n  --resume                   Resume from an existing output directory\n  --keep <rule>              oldest-created | newest-modified | prefer-path\n  --prefer-path <dir>        Preferred directory for --keep prefer-path\n  --hash-all-files           Disable fast prefilter and hash every file\n  --include <text>           Only scan paths containing this text\n  --exclude <text>           Skip paths containing this text\n  --follow-symlinks          Follow symbolic links during traversal\n  --use-trash                Move deleted files to the system trash instead of permanent deletion\n  -h, --help                 Show help");
    t
}

impl Fault {
    /// The message that tells a user of the fault.
    pub open spec fn message(self) -> Seq<char> {
        match self {
            Fault::MissingValue { flag, binary } => "Missing value for "@ + flag + "\n\n"@
                + usage_text(binary),
            Fault::UnknownFlag { flag, binary } => "Unknown flag: "@ + flag + "\n\n"@ + usage_text(
                binary,
            ),
            Fault::UnexpectedArgument { value, binary } => "Unexpected positional argument: "@
                + value + "\n\n"@ + usage_text(binary),
            Fault::MissingRoot { binary } => "Missing root directory\n\n"@ + usage_text(binary),
            Fault::ResumeWithoutOutput => "--resume requires an explicit --output-dir"@,
            Fault::UnsupportedKeepRule { name } => "Unsupported keep rule: "@ + name,
            Fault::MissingPreferPath => "--keep prefer-path requires --prefer-path"@,
            Fault::RootRequired => "Root directory is required"@,
            Fault::OutputRequired => "Output directory is required"@,
            Fault::RootDoesNotExist { path } => "Root directory does not exist: "@ + path,
            Fault::RootIsNoDirectory { path } => "Root path is not a directory: "@ + path,
            Fault::NoCheckpointInterval => "checkpoint_interval must be greater than 0"@,
            Fault::PreferredRequired => "Preferred path is required for the selected keep rule"@,
            Fault::PreferredDoesNotExist { path } => "Preferred path does not exist: "@ + path,
        }
    }
}

impl ConfigError {
    /// The message that tells a user of the error.
    pub fn message(&self) -> (r: String)
        ensures
            r@ == self@.message(),
    {
        match self {
            ConfigError::MissingValue { flag, binary } => "Missing value for ".to_string().concat(
                flag.as_str(),
            ).concat("\n\n").concat(usage(binary.as_str()).as_str()),
            ConfigError::UnknownFlag { flag, binary } => "Unknown flag: ".to_string().concat(
                flag.as_str(),
            ).concat("\n\n").concat(usage(binary.as_str()).as_str()),
            ConfigError::UnexpectedArgument {
                value,
                binary,
            } => "Unexpected positional argument: ".to_string().concat(value.as_str()).concat(
                "\n\n",
            ).concat(usage(binary.as_str()).as_str()),
            ConfigError::MissingRoot { binary } => "Missing root directory\n\n".to_string().concat(
                usage(binary.as_str()).as_str(),
            ),
            ConfigError::ResumeWithoutOutput => {
                "--resume requires an explicit --output-dir".to_string()
            },
            ConfigError::UnsupportedKeepRule {
                name,
            } => "Unsupported keep rule: ".to_string().concat(name.as_str()),
            ConfigError::MissingPreferPath => {
                "--keep prefer-path requires --prefer-path".to_string()
            },
            ConfigError::RootRequired => "Root directory is required".to_string(),
            ConfigError::OutputRequired => "Output directory is required".to_string(),
            ConfigError::RootDoesNotExist {
                path,
            } => "Root directory does not exist: ".to_string().concat(path.as_str()),
            ConfigError::RootIsNoDirectory {
                path,
            } => "Root path is not a directory: ".to_string().concat(path.as_str()),
            ConfigError::NoCheckpointInterval => {
                "checkpoint_interval must be greater than 0".to_string()
            },
            ConfigError::PreferredRequired => {
                "Preferred path is required for the selected keep rule".to_string()
            },
            ConfigError::PreferredDoesNotExist {
                path,
            } => "Preferred path does not exist: ".to_string().concat(path.as_str()),
        }
    }
}

// ---------------------------------------------------------------------------
// Validation
// ---------------------------------------------------------------------------

/// What the file system says of the paths of a configuration. `preferred_exists` counts
/// only where the keep rule prefers a path.
#[derive(Debug, Clone, Copy, PartialEq, Eq, Structural)]
pub struct PathFacts {
    pub root_exists: bool,
    pub root_is_dir: bool,
    pub preferred_exists: bool,
}

/// The first fault of a configuration, if it has one.
pub open spec fn config_fault(config: ConfigRecord, facts: PathFacts) -> Option<Fault> {
    if config.root_dir.len() == 0 {
        Some(Fault::RootRequired)
    } else if config.output_dir.len() == 0 {
        Some(Fault::OutputRequired)
    } else if !facts.root_exists {
        Some(Fault::RootDoesNotExist { path: config.root_dir })
    } else if !facts.root_is_dir {
        Some(Fault::RootIsNoDirectory { path: config.root_dir })
    } else if config.checkpoint_interval == 0 {
        Some(Fault::NoCheckpointInterval)
    } else {
        match config.keep_rule {
            KeepRuleRecord::PreferPath(path) => if path.len() == 0 {
                Some(Fault::PreferredRequired)
            } else if !facts.preferred_exists {
                Some(Fault::PreferredDoesNotExist { path })
            } else {
                None
            },
            _ => None,
        }
    }
}

impl RunConfig {
    /// Whether the configuration is usable, given what the file system says of its paths.
    pub fn validate(&self, facts: PathFacts) -> (r: Result<(), ConfigError>)
        ensures
            match r {
                Ok(()) => config_fault(self@, facts) is None,
                Err(e) => config_fault(self@, facts) == Some(e@),
            },
            r is Ok ==> self.checkpoint_interval > 0,
            r is Ok <==> {
                &&& self.root_dir@.len() > 0
                &&& self.output_dir@.len() > 0
                &&& facts.root_exists
                &&& facts.root_is_dir
                &&& self.checkpoint_interval > 0
                &&& self.keep_rule matches KeepRule::PreferPath(folder) ==> folder@.len() > 0
                    && facts.preferred_exists
            },
    {
        if self.root_dir.as_str().is_empty() {
            return Err(ConfigError::RootRequired);
        }
        if self.output_dir.as_str().is_empty() {
            return Err(ConfigError::OutputRequired);
        }
        if !facts.root_exists {
            return Err(ConfigError::RootDoesNotExist { path: self.root_dir.clone() });
        }
        if !facts.root_is_dir {
            return Err(ConfigError::RootIsNoDirectory { path: self.root_dir.clone() });
        }
        if self.checkpoint_interval == 0 {
            return Err(ConfigError::NoCheckpointInterval);
        }
        if let KeepRule::PreferPath(path) = &self.keep_rule {
            if path.as_str().is_empty() {
                return Err(ConfigError::PreferredRequired);
            }
            if !facts.preferred_exists {
                return Err(ConfigError::PreferredDoesNotExist { path: path.clone() });
            }
        }
        Ok(())
    }
}

// ---------------------------------------------------------------------------
// Command line
// ---------------------------------------------------------------------------

/// What the command line asks for.
#[derive(Debug, PartialEq, Eq)]
pub struct CliArgs {
    pub root_dir: Option<String>,
    pub output_dir: Option<String>,
    pub mode: OperationMode,
    pub keep_name: String,
    pub prefer_path: Option<String>,
    pub fast_prefilter: bool,
    pub include_filters: Vec<String>,
    pub exclude_filters: Vec<String>,
    pub follow_symlinks: bool,
    pub use_trash: bool,
    pub resume: bool,
}

/// The contents of [`CliArgs`].
#[verifier::ext_equal]
pub struct ArgsRecord {
    pub root_dir: Option<Seq<char>>,
    pub output_dir: Option<Seq<char>>,
    pub mode: OperationMode,
    pub keep_name: Seq<char>,
    pub prefer_path: Option<Seq<char>>,
    pub fast_prefilter: bool,
    pub include_filters: Seq<Seq<char>>,
    pub exclude_filters: Seq<Seq<char>>,
    pub follow_symlinks: bool,
    pub use_trash: bool,
    pub resume: bool,
}

impl View for CliArgs {
    type V = ArgsRecord;

    open spec fn view(&self) -> ArgsRecord {
        ArgsRecord {
            root_dir: text_option(self.root_dir),
            output_dir: text_option(self.output_dir),
            mode: self.mode,
            keep_name: self.keep_name@,
            prefer_path: text_option(self.prefer_path),
            fast_prefilter: self.fast_prefilter,
            include_filters: texts(self.include_filters@),
            exclude_filters: texts(self.exclude_filters@),
            follow_symlinks: self.follow_symlinks,
            use_trash: self.use_trash,
            resume: self.resume,
        }
    }
}

/// What an empty command line asks for.
pub open spec fn default_args() -> ArgsRecord {
    ArgsRecord {
        root_dir: None,
        output_dir: None,
        mode: OperationMode::DryRun,
        keep_name: "oldest-created"@,
        prefer_path: None,
        fast_prefilter: true,
        include_filters: Seq::empty(),
        exclude_filters: Seq::empty(),
        follow_symlinks: false,
        use_trash: false,
        resume: false,
    }
}

/// Whether a flag is followed by a value.
pub open spec fn takes_value(flag: Seq<char>) -> bool {
    ||| flag == "--path"@
    ||| flag == "--output-dir"@
    ||| flag == "--keep"@
    ||| flag == "--prefer-path"@
    ||| flag == "--include"@
    ||| flag == "--exclude"@
}

/// Whether a flag stands alone.
pub open spec fn is_switch(flag: Seq<char>) -> bool {
    ||| flag == "--hash-all-files"@
    ||| flag == "--apply"@
    ||| flag == "--dry-run"@
    ||| flag == "--resume"@
    ||| flag == "--follow-symlinks"@
    ||| flag == "--use-trash"@
    ||| flag == "--fast-prefilter"@
}

impl ArgsRecord {
    /// With the value of a flag that takes one.
    pub open spec fn with_value(self, flag: Seq<char>, value: Seq<char>) -> ArgsRecord {
        if flag == "--path"@ {
            ArgsRecord { root_dir: Some(value), ..self }
        } else if flag == "--output-dir"@ {
            ArgsRecord { output_dir: Some(value), ..self }
        } else if flag == "--keep"@ {
            ArgsRecord { keep_name: value, ..self }
        } else if flag == "--prefer-path"@ {
            ArgsRecord { prefer_path: Some(value), ..self }
        } else if flag == "--include"@ {
            ArgsRecord { include_filters: self.include_filters.push(value), ..self }
        } else {
            ArgsRecord { exclude_filters: self.exclude_filters.push(value), ..self }
        }
    }

    /// With a flag that stands alone.
    pub open spec fn with_switch(self, flag: Seq<char>) -> ArgsRecord {
        if flag == "--hash-all-files"@ {
            ArgsRecord { fast_prefilter: false, ..self }
        } else if flag == "--apply"@ {
            ArgsRecord { mode: OperationMode::Apply, ..self }
        } else if flag == "--dry-run"@ {
            ArgsRecord { mode: OperationMode::DryRun, ..self }
        } else if flag == "--resume"@ {
            ArgsRecord { resume: true, ..self }
        } else if flag == "--follow-symlinks"@ {
            ArgsRecord { follow_symlinks: true, ..self }
        } else if flag == "--use-trash"@ {
            ArgsRecord { use_trash: true, ..self }
        } else {
            ArgsRecord { fast_prefilter: true, ..self }
        }
    }
}

/// The place of the first `=` in `s`, or its length where it has none.
pub open spec fn equals_at(s: Seq<char>) -> int
    decreases s.len(),
{
    if s.len() == 0 || s[0] == '=' {
        0
    } else {
        1 + equals_at(s.drop_first())
    }
}

/// What the arguments from the `i`-th on ask for, beyond `acc`.
pub open spec fn parse_rest(
    args: Seq<Seq<char>>,
    i: int,
    acc: ArgsRecord,
    binary: Seq<char>,
) -> Result<ArgsRecord, Fault>
    decreases args.len() - i,
{
    if i >= args.len() {
        Ok(acc)
    } else {
        let arg = args[i];
        let at = equals_at(arg);
        if takes_value(arg) {
            if i + 1 < args.len() {
                parse_rest(args, i + 2, acc.with_value(arg, args[i + 1]), binary)
            } else {
                Err(Fault::MissingValue { flag: arg, binary })
            }
        } else if is_switch(arg) {
            parse_rest(args, i + 1, acc.with_switch(arg), binary)
        } else if at < arg.len() && takes_value(arg.take(at)) {
            parse_rest(args, i + 1, acc.with_value(arg.take(at), arg.skip(at + 1)), binary)
        } else if arg.len() > 0 && arg[0] == '-' {
            Err(Fault::UnknownFlag { flag: arg, binary })
        } else if acc.root_dir is Some {
            Err(Fault::UnexpectedArgument { value: arg, binary })
        } else {
            parse_rest(args, i + 1, ArgsRecord { root_dir: Some(arg), ..acc }, binary)
        }
    }
}

/// The name of the program, which the command line begins with.
pub open spec fn binary_name(args: Seq<Seq<char>>) -> Seq<char> {
    if args.len() > 0 {
        args[0]
    } else {
        "duplicate-file-deletor-cli"@
    }
}

/// What a command line asks for. It names a root folder.
pub open spec fn parsed_args(args: Seq<Seq<char>>) -> Result<ArgsRecord, Fault> {
    match parse_rest(args, 1, default_args(), binary_name(args)) {
        Ok(parsed) => if parsed.root_dir is Some {
            Ok(parsed)
        } else {
            Err(Fault::MissingRoot { binary: binary_name(args) })
        },
        Err(e) => Err(e),
    }
}

/// The name of the program, which the command line begins with.
pub fn program_name(args: &Vec<String>) -> (r: String)
    ensures
        r@ == binary_name(texts(args@)),
{
    if args.len() > 0 {
        args[0].clone()
    } else {
        "duplicate-file-deletor-cli".to_string()
    }
}

/// Whether the command line asks for help.
pub open spec fn asks_for_help(args: Seq<Seq<char>>) -> bool {
    exists|i: int|
        0 <= i < args.len() && (#[trigger] args[i] == "--help"@ || args[i] == "-h"@)
}

/// Whether the command line asks for help.
pub fn wants_help(args: &Vec<String>) -> (r: bool)
    ensures
        r == asks_for_help(texts(args@)),
{
    let ghost all = texts(args@);
    let mut i: usize = 0;
    while i < args.len()
        invariant
            i <= args@.len(),
            all == texts(args@),
            forall|k: int| 0 <= k < i ==> #[trigger] all[k] != "--help"@ && all[k] != "-h"@,
        decreases args@.len() - i,
    {
        assert(all[i as int] == args@[i as int]@);
        if text_eq(args[i].as_str(), "--help") || text_eq(args[i].as_str(), "-h") {
            return true;
        }
        i = i + 1;
    }
    false
}

proof fn lemma_equals_at(s: Seq<char>, k: int)
    requires
        0 <= k <= s.len(),
        forall|j: int| 0 <= j < k ==> #[trigger] s[j] != '=',
        k < s.len() ==> s[k] == '=',
    ensures
        equals_at(s) == k,
    decreases s.len(),
{
    if k > 0 {
        assert(s[0] != '=');
        let t = s.drop_first();
        assert forall|j: int| 0 <= j < k - 1 implies #[trigger] t[j] != '=' by {
            assert(t[j] == s[j + 1]);
        }
        lemma_equals_at(t, k - 1);
    }
}

fn find_equals(cs: &Vec<char>) -> (r: usize)
    ensures
        r <= cs@.len(),
        r == equals_at(cs@),
{
    let mut k: usize = 0;
    while k < cs.len() && cs[k] != '='
        invariant
            k <= cs@.len(),
            forall|j: int| 0 <= j < k ==> #[trigger] cs@[j] != '=',
        decreases cs@.len() - k,
    {
        k = k + 1;
    }
    proof {
        lemma_equals_at(cs@, k as int);
    }
    k
}

fn expects_value(flag: &str) -> (r: bool)
    ensures
        r == takes_value(flag@),
{
    text_eq(flag, "--path") || text_eq(flag, "--output-dir") || text_eq(flag, "--keep") || text_eq(
        flag,
        "--prefer-path",
    ) || text_eq(flag, "--include") || text_eq(flag, "--exclude")
}

impl CliArgs {
    fn set_value(&mut self, flag: &str, value: String)
        requires
            takes_value(flag@),
        ensures
            final(self)@ == old(self)@.with_value(flag@, value@),
    {
        let ghost before = self@;
        if text_eq(flag, "--path") {
            self.root_dir = Some(value);
        } else if text_eq(flag, "--output-dir") {
            self.output_dir = Some(value);
        } else if text_eq(flag, "--keep") {
            self.keep_name = value;
        } else if text_eq(flag, "--prefer-path") {
            self.prefer_path = Some(value);
        } else if text_eq(flag, "--include") {
            self.include_filters.push(value);
            assert(self@.include_filters =~= before.include_filters.push(value@));
        } else {
            self.exclude_filters.push(value);
            assert(self@.exclude_filters =~= before.exclude_filters.push(value@));
        }
        assert(self@ =~= before.with_value(flag@, value@));
    }

    fn set_switch(&mut self, flag: &str) -> (r: bool)
        ensures
            r == is_switch(flag@),
            r ==> final(self)@ == old(self)@.with_switch(flag@),
            !r ==> *final(self) == *old(self),
    {
        let ghost before = self@;
        if text_eq(flag, "--hash-all-files") {
            self.fast_prefilter = false;
        } else if text_eq(flag, "--apply") {
            self.mode = OperationMode::Apply;
        } else if text_eq(flag, "--dry-run") {
            self.mode = OperationMode::DryRun;
        } else if text_eq(flag, "--resume") {
            self.resume = true;
        } else if text_eq(flag, "--follow-symlinks") {
            self.follow_symlinks = true;
        } else if text_eq(flag, "--use-trash") {
            self.use_trash = true;
        } else if text_eq(flag, "--fast-prefilter") {
            self.fast_prefilter = true;
        } else {
            return false;
        }
        assert(self@ =~= before.with_switch(flag@));
        true
    }

    /// Reads a command line, the program's name first.
    pub fn parse(args: &Vec<String>) -> (r: Result<CliArgs, ConfigError>)
        ensures
            match r {
                Ok(parsed) => Ok(parsed@),
                Err(e) => Err(e@),
            } == parsed_args(texts(args@)),
            r matches Ok(parsed) ==> parsed.root_dir is Some,
    {
        let binary: String = program_name(args);
        let ghost all = texts(args@);
        let mut acc = CliArgs {
            root_dir: None,
            output_dir: None,
            mode: OperationMode::DryRun,
            keep_name: "oldest-created".to_string(),
            prefer_path: None,
            fast_prefilter: true,
            include_filters: Vec::new(),
            exclude_filters: Vec::new(),
            follow_symlinks: false,
            use_trash: false,
            resume: false,
        };
        proof {
            assert(acc@ =~= default_args());
        }
        let n: usize = args.len();
        let mut i: usize = 1;
        while i < n
            invariant
                n == args@.len(),
                i <= n || n == 0,
                all == texts(args@),
                binary@ == binary_name(all),
                parse_rest(all, 1, default_args(), binary@) == parse_rest(
                    all,
                    i as int,
                    acc@,
                    binary@,
                ),
            decreases n - i,
        {
            let arg: &String = &args[i];
            proof {
                assert(all[i as int] == arg@);
                assert(i + 1 < n ==> all[i + 1] == args@[i + 1]@);
            }
            if expects_value(arg.as_str()) {
                if i + 1 >= n {
                    return Err(ConfigError::MissingValue { flag: arg.clone(), binary });
                }
                acc.set_value(arg.as_str(), args[i + 1].clone());
                i = i + 2;
                continue ;
            }
            if acc.set_switch(arg.as_str()) {
                i = i + 1;
                continue ;
            }
            let cs = chars_of(arg.as_str());
            let at: usize = find_equals(&cs);
            if at < cs.len() {
                let flag = text_of(&cs, 0, at);
                proof {
                    assert(cs@.subrange(0, at as int) =~= cs@.take(at as int));
                    assert(cs@.subrange(at + 1, cs@.len() as int) =~= cs@.skip(at + 1));
                }
                if expects_value(flag.as_str()) {
                    let value = text_of(&cs, at + 1, cs.len());
                    acc.set_value(flag.as_str(), value);
                    i = i + 1;
                    continue ;
                }
            }
            if cs.len() > 0 && cs[0] == '-' {
                return Err(ConfigError::UnknownFlag { flag: arg.clone(), binary });
            }
            if acc.root_dir.is_some() {
                return Err(ConfigError::UnexpectedArgument { value: arg.clone(), binary });
            }
            let ghost before = acc@;
            acc.root_dir = Some(arg.clone());
            proof {
                assert(acc@ =~= (ArgsRecord { root_dir: Some(arg@), ..before }));
            }
            i = i + 1;
        }
        if acc.root_dir.is_none() {
            return Err(ConfigError::MissingRoot { binary });
        }
        Ok(acc)
    }

    /// The fault of what the command line asks for, if it has one: resuming without a
    /// folder to resume from, or no keep rule of the name.
    pub fn check(&self) -> (r: Result<(), ConfigError>)
        ensures
            match r {
                Ok(()) => request_fault(self@) is None,
                Err(e) => request_fault(self@) == Some(e@),
            },
    {
        if self.resume && self.output_dir.is_none() {
            return Err(ConfigError::ResumeWithoutOutput);
        }
        match parse_keep_rule(self.keep_name.as_str(), self.prefer_path.clone()) {
            Ok(_) => Ok(()),
            Err(RuleError::MissingPath) => Err(ConfigError::MissingPreferPath),
            Err(RuleError::Unsupported) => Err(
                ConfigError::UnsupportedKeepRule { name: self.keep_name.clone() },
            ),
        }
    }
}

/// The fault of what a command line asks for, if it has one.
pub open spec fn request_fault(args: ArgsRecord) -> Option<Fault> {
    if args.resume && args.output_dir is None {
        Some(Fault::ResumeWithoutOutput)
    } else {
        match named_rule(args.keep_name, args.prefer_path) {
            Ok(_) => None,
            Err(RuleError::MissingPath) => Some(Fault::MissingPreferPath),
            Err(RuleError::Unsupported) => Some(
                Fault::UnsupportedKeepRule { name: args.keep_name },
            ),
        }
    }
}

/// The folders of a run as absolute paths. `prefer_dir` is the folder that the command
/// line prefers, where the keep rule asks for one and it names one.
#[derive(Debug)]
pub struct Places {
    pub root_dir: String,
    pub output_dir: String,
    pub prefer_dir: Option<String>,
}

/// The configuration that a command line asks for, its folders resolved.
pub open spec fn requested_config(
    args: ArgsRecord,
    root_dir: Seq<char>,
    output_dir: Seq<char>,
) -> ConfigRecord {
    ConfigRecord {
        root_dir,
        output_dir,
        mode: args.mode,
        keep_rule: match named_rule(args.keep_name, args.prefer_path) {
            Ok(rule) => rule,
            Err(_) => KeepRuleRecord::OldestCreated,
        },
        fast_prefilter: args.fast_prefilter,
        include_filters: args.include_filters,
        exclude_filters: args.exclude_filters,
        follow_symlinks: args.follow_symlinks,
        use_trash: args.use_trash,
        resume: args.resume,
        checkpoint_interval: DEFAULT_CHECKPOINT_INTERVAL,
    }
}

impl RunConfig {
    /// The configuration that a command line asks for, its folders resolved by the
    /// caller, who also says what the file system holds.
    pub fn from_args(args: &CliArgs, places: &Places, facts: PathFacts) -> (r: Result<
        RunConfig,
        ConfigError,
    >)
        ensures
            ({
                let resolved = ArgsRecord {
                    prefer_path: text_option(places.prefer_dir),
                    ..args@
                };
                let wanted = requested_config(
                    resolved,
                    places.root_dir@,
                    places.output_dir@,
                );
                match r {
                    Ok(config) => {
                        &&& config@ == wanted
                        &&& request_fault(resolved) is None
                        &&& config_fault(wanted, facts) is None
                    },
                    Err(e) => match request_fault(resolved) {
                        Some(fault) => e@ == fault,
                        None => config_fault(wanted, facts) == Some(e@),
                    },
                }
            }),
            r matches Ok(config) ==> {
                &&& config.root_dir@ == places.root_dir@
                &&& config.output_dir@ == places.output_dir@
                &&& config.mode == args.mode
                &&& config.fast_prefilter == args.fast_prefilter
                &&& texts(config.include_filters@) == texts(args.include_filters@)
                &&& texts(config.exclude_filters@) == texts(args.exclude_filters@)
                &&& config.follow_symlinks == args.follow_symlinks
                &&& config.use_trash == args.use_trash
                &&& config.resume == args.resume
                &&& config.checkpoint_interval == DEFAULT_CHECKPOINT_INTERVAL
                &&& match config.keep_rule {
                    KeepRule::OldestCreated => args.keep_name@ == "oldest-created"@,
                    KeepRule::NewestModified => args.keep_name@ == "newest-modified"@,
                    KeepRule::PreferPath(folder) => args.keep_name@ == "prefer-path"@
                        && text_option(places.prefer_dir) == Some(folder@),
                }
            },
            r is Ok <==> {
                &&& places.root_dir@.len() > 0
                &&& places.output_dir@.len() > 0
                &&& facts.root_exists
                &&& facts.root_is_dir
                &&& args.resume ==> args.output_dir is Some
                &&& {
                    ||| args.keep_name@ == "oldest-created"@
                    ||| args.keep_name@ == "newest-modified"@
                    ||| args.keep_name@ == "prefer-path"@ && facts.preferred_exists
                        && places.prefer_dir is Some && (places.prefer_dir->0)@.len() > 0
                }
            },
    {
        proof {
            law_names_of_rules(args.keep_name@, text_option(places.prefer_dir));
        }
        if args.resume && args.output_dir.is_none() {
            return Err(ConfigError::ResumeWithoutOutput);
        }
        let keep_rule = match parse_keep_rule(args.keep_name.as_str(), places.prefer_dir.clone()) {
            Ok(rule) => rule,
            Err(RuleError::MissingPath) => {
                return Err(ConfigError::MissingPreferPath);
            },
            Err(RuleError::Unsupported) => {
                return Err(ConfigError::UnsupportedKeepRule { name: args.keep_name.clone() });
            },
        };
        let config = RunConfig {
            root_dir: places.root_dir.clone(),
            output_dir: places.output_dir.clone(),
            mode: args.mode,
            keep_rule,
            fast_prefilter: args.fast_prefilter,
            include_filters: clone_texts(&args.include_filters),
            exclude_filters: clone_texts(&args.exclude_filters),
            follow_symlinks: args.follow_symlinks,
            use_trash: args.use_trash,
            resume: args.resume,
            checkpoint_interval: DEFAULT_CHECKPOINT_INTERVAL,
        };
        match config.validate(facts) {
            Ok(()) => Ok(config),
            Err(e) => Err(e),
        }
    }
}

// ---------------------------------------------------------------------------
// Laws
// ---------------------------------------------------------------------------

proof fn lemma_only_apply_applies(
    args: Seq<Seq<char>>,
    i: int,
    acc: ArgsRecord,
    binary: Seq<char>,
)
    requires
        0 <= i,
        acc.mode == OperationMode::DryRun,
        forall|k: int| i <= k < args.len() ==> #[trigger] args[k] != "--apply"@,
    ensures
        parse_rest(args, i, acc, binary) matches Ok(parsed) ==> parsed.mode
            == OperationMode::DryRun,
    decreases args.len() - i,
{
    if i < args.len() {
        let arg = args[i];
        let at = equals_at(arg);
        assert(arg != "--apply"@);
        if takes_value(arg) {
            if i + 1 < args.len() {
                lemma_only_apply_applies(args, i + 2, acc.with_value(arg, args[i + 1]), binary);
            }
        } else if is_switch(arg) {
            lemma_only_apply_applies(args, i + 1, acc.with_switch(arg), binary);
        } else if at < arg.len() && takes_value(arg.take(at)) {
            lemma_only_apply_applies(
                args,
                i + 1,
                acc.with_value(arg.take(at), arg.skip(at + 1)),
                binary,
            );
        } else {
            lemma_only_apply_applies(
                args,
                i + 1,
                ArgsRecord { root_dir: Some(arg), ..acc },
                binary,
            );
        }
    }
}

/// Safe by default: a command line without `--apply` never asks for deletions.
pub proof fn law_dry_run_is_the_default(args: Seq<Seq<char>>)
    requires
        forall|k: int| 0 <= k < args.len() ==> #[trigger] args[k] != "--apply"@,
    ensures
        parsed_args(args) matches Ok(parsed) ==> parsed.mode == OperationMode::DryRun,
{
    lemma_only_apply_applies(args, 1, default_args(), binary_name(args));
}

/// Whether reading the arguments from the `i`-th on, one flag after the other, comes to the
/// `n`-th, so that it is no value of a flag before it.
pub open spec fn comes_to(args: Seq<Seq<char>>, i: int, n: int) -> bool
    decreases n - i,
{
    if i >= n {
        i == n
    } else if takes_value(args[i]) {
        i + 2 <= n && comes_to(args, i + 2, n)
    } else {
        comes_to(args, i + 1, n)
    }
}

proof fn lemma_flag_has_no_equals(flag: Seq<char>)
    requires
        takes_value(flag) || is_switch(flag),
    ensures
        forall|k: int| 0 <= k < flag.len() ==> #[trigger] flag[k] != '=',
{
    reveal_strlit("--path");
    reveal_strlit("--output-dir");
    reveal_strlit("--keep");
    reveal_strlit("--prefer-path");
    reveal_strlit("--include");
    reveal_strlit("--exclude");
    reveal_strlit("--hash-all-files");
    reveal_strlit("--apply");
    reveal_strlit("--dry-run");
    reveal_strlit("--resume");
    reveal_strlit("--follow-symlinks");
    reveal_strlit("--use-trash");
    reveal_strlit("--fast-prefilter");
}

/// Arguments that agree from some place on are read alike from there on.
proof fn lemma_rest_is_read_alike(
    args: Seq<Seq<char>>,
    i: int,
    others: Seq<Seq<char>>,
    j: int,
    acc: ArgsRecord,
    binary: Seq<char>,
)
    requires
        0 <= i <= args.len(),
        0 <= j <= others.len(),
        args.skip(i) == others.skip(j),
    ensures
        parse_rest(args, i, acc, binary) == parse_rest(others, j, acc, binary),
    decreases args.len() - i,
{
    let rest = args.skip(i);
    assert(rest.len() == args.len() - i);
    assert(others.skip(j).len() == others.len() - j);
    if i < args.len() {
        assert(args[i] == rest[0]);
        assert(others[j] == others.skip(j)[0]);
        let arg = args[i];
        let at = equals_at(arg);
        assert(args.skip(i + 1) =~= rest.skip(1));
        assert(others.skip(j + 1) =~= others.skip(j).skip(1));
        if takes_value(arg) {
            if i + 1 < args.len() {
                assert(args[i + 1] == rest[1]);
                assert(others[j + 1] == others.skip(j)[1]);
                assert(args.skip(i + 2) =~= rest.skip(2));
                assert(others.skip(j + 2) =~= others.skip(j).skip(2));
                let next = acc.with_value(arg, args[i + 1]);
                lemma_rest_is_read_alike(args, i + 2, others, j + 2, next, binary);
            }
        } else if is_switch(arg) {
            lemma_rest_is_read_alike(args, i + 1, others, j + 1, acc.with_switch(arg), binary);
        } else if at < arg.len() && takes_value(arg.take(at)) {
            let next = acc.with_value(arg.take(at), arg.skip(at + 1));
            lemma_rest_is_read_alike(args, i + 1, others, j + 1, next, binary);
        } else {
            let next = ArgsRecord { root_dir: Some(arg), ..acc };
            lemma_rest_is_read_alike(args, i + 1, others, j + 1, next, binary);
        }
    }
}

proof fn lemma_joined_flag(
    before: Seq<Seq<char>>,
    flag: Seq<char>,
    value: Seq<char>,
    after: Seq<Seq<char>>,
    i: int,
    acc: ArgsRecord,
    binary: Seq<char>,
)
    requires
        takes_value(flag),
        0 <= i <= before.len(),
        comes_to(before, i, before.len() as int),
    ensures
        parse_rest(before + seq![flag, value] + after, i, acc, binary) == parse_rest(
            before + seq![flag + seq!['='] + value] + after,
            i,
            acc,
            binary,
        ),
    decreases before.len() - i,
{
    let whole = flag + seq!['='] + value;
    let apart = before + seq![flag, value] + after;
    let together = before + seq![whole] + after;
    let n = before.len() as int;
    if i == n {
        lemma_flag_has_no_equals(flag);
        if takes_value(whole) || is_switch(whole) {
            lemma_flag_has_no_equals(whole);
            assert(whole[flag.len() as int] == '=');
        }
        assert forall|k: int| 0 <= k < flag.len() implies #[trigger] whole[k] != '=' by {
            assert(whole[k] == flag[k]);
        }
        lemma_equals_at(whole, flag.len() as int);
        assert(whole.take(flag.len() as int) =~= flag);
        assert(whole.skip(flag.len() as int + 1) =~= value);
        assert(apart[n] == flag);
        assert(apart[n + 1] == value);
        assert(together[n] == whole);
        assert(apart.skip(n + 2) =~= after);
        assert(together.skip(n + 1) =~= after);
        lemma_rest_is_read_alike(
            apart,
            n + 2,
            together,
            n + 1,
            acc.with_value(flag, value),
            binary,
        );
    } else {
        let arg = before[i];
        let at = equals_at(arg);
        assert(apart[i] == arg);
        assert(together[i] == arg);
        if takes_value(arg) {
            assert(apart[i + 1] == before[i + 1]);
            assert(together[i + 1] == before[i + 1]);
            let next = acc.with_value(arg, before[i + 1]);
            lemma_joined_flag(before, flag, value, after, i + 2, next, binary);
        } else if is_switch(arg) {
            lemma_joined_flag(before, flag, value, after, i + 1, acc.with_switch(arg), binary);
        } else if at < arg.len() && takes_value(arg.take(at)) {
            let next = acc.with_value(arg.take(at), arg.skip(at + 1));
            lemma_joined_flag(before, flag, value, after, i + 1, next, binary);
        } else {
            let next = ArgsRecord { root_dir: Some(arg), ..acc };
            lemma_joined_flag(before, flag, value, after, i + 1, next, binary);
        }
    }
}

/// A flag and its value may stand in one argument, with `=` between them: the command line
/// asks for the same, or has the same fault.
pub proof fn law_flag_and_value_may_be_joined(
    before: Seq<Seq<char>>,
    flag: Seq<char>,
    value: Seq<char>,
    after: Seq<Seq<char>>,
)
    requires
        before.len() >= 1,
        takes_value(flag),
        comes_to(before, 1, before.len() as int),
    ensures
        parsed_args(before + seq![flag, value] + after) == parsed_args(
            before + seq![flag + seq!['='] + value] + after,
        ),
{
    let apart = before + seq![flag, value] + after;
    let together = before + seq![flag + seq!['='] + value] + after;
    assert(apart[0] == before[0]);
    assert(together[0] == before[0]);
    lemma_joined_flag(before, flag, value, after, 1, default_args(), before[0]);
}

/// A configuration is usable exactly where it names a root folder that is there, an output
/// folder, a positive number of files between two checkpoints, and, where it prefers a
/// folder, one that is there. The first of these that does not hold is its fault.
pub proof fn law_usable_configurations(config: ConfigRecord, facts: PathFacts)
    ensures
        ({
            let fault = config_fault(config, facts);
            let named = config.root_dir.len() > 0 && config.output_dir.len() > 0;
            let rooted = named && facts.root_exists && facts.root_is_dir;
            let paced = rooted && config.checkpoint_interval > 0;
            let folder = match config.keep_rule {
                KeepRuleRecord::PreferPath(folder) => Some(folder),
                _ => None,
            };
            &&& fault is None <==> paced && (folder is Some ==> folder->0.len() > 0
                && facts.preferred_exists)
            &&& fault == Some(Fault::RootRequired) <==> config.root_dir.len() == 0
            &&& fault == Some(Fault::OutputRequired) <==> config.root_dir.len() > 0
                && config.output_dir.len() == 0
            &&& fault == Some(Fault::RootDoesNotExist { path: config.root_dir }) <==> named
                && !facts.root_exists
            &&& fault == Some(Fault::RootIsNoDirectory { path: config.root_dir }) <==> named
                && facts.root_exists && !facts.root_is_dir
            &&& fault == Some(Fault::NoCheckpointInterval) <==> rooted
                && config.checkpoint_interval == 0
            &&& fault == Some(Fault::PreferredRequired) <==> paced && folder is Some
                && folder->0.len() == 0
            &&& fault is Some && fault->0 is PreferredDoesNotExist <==> paced && folder is Some
                && folder->0.len() > 0 && !facts.preferred_exists
            &&& fault matches Some(Fault::PreferredDoesNotExist { path }) ==> folder == Some(path)
        }),
{
}

/// A command line may resume only where it names the folder to resume from, and its keep
/// rule is one of the three, with a folder where it prefers one.
pub proof fn law_acceptable_requests(args: ArgsRecord)
    ensures
        ({
            let fault = request_fault(args);
            let grounded = args.resume ==> args.output_dir is Some;
            let known = args.keep_name == "oldest-created"@ || args.keep_name
                == "newest-modified"@;
            let prefers = args.keep_name == "prefer-path"@;
            &&& fault is None <==> grounded && (known || (prefers && args.prefer_path is Some))
            &&& fault == Some(Fault::ResumeWithoutOutput) <==> !grounded
            &&& fault == Some(Fault::MissingPreferPath) <==> grounded && prefers
                && args.prefer_path is None
            &&& fault == Some(Fault::UnsupportedKeepRule { name: args.keep_name }) <==> grounded
                && !known && !prefers
        }),
{
    law_names_of_rules(args.keep_name, args.prefer_path);
}

/// The configuration that a command line asks for has every wish of it: none is dropped and
/// none is put in place of another.
pub proof fn law_configuration_has_every_wish(
    args: ArgsRecord,
    root_dir: Seq<char>,
    output_dir: Seq<char>,
)
    ensures
        ({
            let config = requested_config(args, root_dir, output_dir);
            &&& config.root_dir == root_dir
            &&& config.output_dir == output_dir
            &&& config.mode == args.mode
            &&& config.fast_prefilter == args.fast_prefilter
            &&& config.include_filters == args.include_filters
            &&& config.exclude_filters == args.exclude_filters
            &&& config.follow_symlinks == args.follow_symlinks
            &&& config.use_trash == args.use_trash
            &&& config.resume == args.resume
            &&& config.checkpoint_interval == 500
            &&& args.keep_name == "oldest-created"@ ==> config.keep_rule is OldestCreated
            &&& args.keep_name == "newest-modified"@ ==> config.keep_rule is NewestModified
            &&& args.keep_name == "prefer-path"@ && args.prefer_path is Some ==> config.keep_rule
                == KeepRuleRecord::PreferPath(args.prefer_path->0)
        }),
{
    law_names_of_rules(args.keep_name, args.prefer_path);
}

/// What was read from a command line is what its fields hold, each under its own name.
pub proof fn law_contents_of_arguments(args: CliArgs)
    ensures
        args@.root_dir == text_option(args.root_dir),
        args@.output_dir == text_option(args.output_dir),
        args@.mode == args.mode,
        args@.keep_name == args.keep_name@,
        args@.prefer_path == text_option(args.prefer_path),
        args@.fast_prefilter == args.fast_prefilter,
        args@.include_filters == texts(args.include_filters@),
        args@.exclude_filters == texts(args.exclude_filters@),
        args@.follow_symlinks == args.follow_symlinks,
        args@.use_trash == args.use_trash,
        args@.resume == args.resume,
{
}

/// A fault is told with what is at fault: the flag, the value, the name or the path. Where
/// the command line cannot be read, the usage of the program follows, under the name by which
/// it was called.
pub proof fn law_faults_are_told_with_their_cause(text: Seq<char>, binary: Seq<char>)
    ensures
        (Fault::MissingValue { flag: text, binary }).message() == "Missing value for "@ + text
            + "\n\n"@ + usage_text(binary),
        (Fault::UnknownFlag { flag: text, binary }).message() == "Unknown flag: "@ + text + "\n\n"@
            + usage_text(binary),
        (Fault::UnexpectedArgument { value: text, binary }).message()
            == "Unexpected positional argument: "@ + text + "\n\n"@ + usage_text(binary),
        (Fault::MissingRoot { binary }).message() == "Missing root directory\n\n"@ + usage_text(
            binary,
        ),
        Fault::ResumeWithoutOutput.message() == "--resume requires an explicit --output-dir"@,
        (Fault::UnsupportedKeepRule { name: text }).message() == "Unsupported keep rule: "@ + text,
        Fault::MissingPreferPath.message() == "--keep prefer-path requires --prefer-path"@,
        Fault::RootRequired.message() == "Root directory is required"@,
        Fault::OutputRequired.message() == "Output directory is required"@,
        (Fault::RootDoesNotExist { path: text }).message() == "Root directory does not exist: "@
            + text,
        (Fault::RootIsNoDirectory { path: text }).message() == "Root path is not a directory: "@
            + text,
        Fault::NoCheckpointInterval.message() == "checkpoint_interval must be greater than 0"@,
        Fault::PreferredRequired.message()
            == "Preferred path is required for the selected keep rule"@,
        (Fault::PreferredDoesNotExist { path: text }).message()
            == "Preferred path does not exist: "@ + text,
{
}

/// The program goes by the name that its command line begins with.
pub proof fn law_program_goes_by_its_name(args: Seq<Seq<char>>)
    ensures
        args.len() > 0 ==> binary_name(args) == args[0],
        args.len() == 0 ==> binary_name(args) == "duplicate-file-deletor-cli"@,
        args.len() > 0 ==> (parsed_args(args) matches Err(Fault::MissingRoot { binary }) ==> binary
            == args[0]),
{
    if args.len() > 0 {
        lemma_root_is_missed_at_the_end(args, 1, default_args(), args[0]);
    }
}

proof fn lemma_root_is_missed_at_the_end(
    args: Seq<Seq<char>>,
    i: int,
    acc: ArgsRecord,
    binary: Seq<char>,
)
    ensures
        parse_rest(args, i, acc, binary) matches Err(fault) ==> !(fault is MissingRoot),
    decreases args.len() - i,
{
    if i < args.len() {
        let arg = args[i];
        let at = equals_at(arg);
        if takes_value(arg) {
            if i + 1 < args.len() {
                let next = acc.with_value(arg, args[i + 1]);
                lemma_root_is_missed_at_the_end(args, i + 2, next, binary);
            }
        } else if is_switch(arg) {
            lemma_root_is_missed_at_the_end(args, i + 1, acc.with_switch(arg), binary);
        } else if at < arg.len() && takes_value(arg.take(at)) {
            let next = acc.with_value(arg.take(at), arg.skip(at + 1));
            lemma_root_is_missed_at_the_end(args, i + 1, next, binary);
        } else {
            let next = ArgsRecord { root_dir: Some(arg), ..acc };
            lemma_root_is_missed_at_the_end(args, i + 1, next, binary);
        }
    }
}

} // verus!
