//! The settings that the command line chooses, and how its arguments are read.

use vstd::prelude::*;

use crate::my_error::{ErrorView, MyError};
use crate::text::{
    is_unsigned_text, occurrences, parse_unsigned, starts_with, str_equals, trim, trim_bounds,
    unsigned_value,
};

verus! {

/// AppSettings holds data that are used for initializing App, by parsing the command line arguments
/// for relevant flags.
///
/// Note: Some command line flags override other flags, if both are provided.
/// - --help overrides everything, only showing the usage page, not running the app.
/// - --load overrides --grid, loading the saved game (ignoring the specified grid size).
#[derive(Debug)]
pub struct AppSettings {
    pub help: bool,
    pub load_from_save_file: bool,
    pub grid_size: (usize, usize),
    pub tty_path: Option<String>,
}

/// What the settings hold, with the TTY path as text.
pub struct SettingsView {
    pub help: bool,
    pub load_from_save_file: bool,
    pub grid_size: (usize, usize),
    pub tty_path: Option<Seq<char>>,
}

impl View for AppSettings {
    type V = SettingsView;

    open spec fn view(&self) -> SettingsView {
        SettingsView {
            help: self.help,
            load_from_save_file: self.load_from_save_file,
            grid_size: self.grid_size,
            tty_path: match &self.tty_path {
                Some(path) => Some(path@),
                None => None,
            },
        }
    }
}

/// The settings before any argument: no help, no loading, a grid of 4 rows and
/// 5 columns, no TTY.
pub open spec fn default_settings() -> SettingsView {
    SettingsView { help: false, load_from_save_file: false, grid_size: (4, 5), tty_path: None }
}

impl Default for AppSettings {
    fn default() -> (s: Self)
        ensures
            s@ == default_settings(),
    {
        let default_num_rows: usize = 4;
        let default_num_cols: usize = 5;

        Self {
            help: false,
            load_from_save_file: false,
            grid_size: (default_num_rows, default_num_cols),
            tty_path: None,
        }
    }
}

/// The value of one grid dimension: the text without surrounding white space
/// read as a `usize`, which must be at least 2.
pub open spec fn grid_dimension(piece: Seq<char>) -> Option<usize> {
    let t = trim(piece);
    if is_unsigned_text(t, usize::MAX as nat) && unsigned_value(t) >= 2 {
        Some(unsigned_value(t) as usize)
    } else {
        None
    }
}

/// The index of the first `c` in `s` (the length of `s` if there is none).
pub open spec fn first_index(s: Seq<char>, c: char) -> int
    decreases s.len(),
{
    if s.len() == 0 || s[0] == c {
        0
    } else {
        1 + first_index(s.drop_first(), c)
    }
}

/// The grid size that the text `NUM_ROWS,NUM_COLS` gives, or the error for it:
/// the whole text when it does not hold exactly one comma, else the first
/// dimension that is not an integer of at least 2.
pub open spec fn grid_size_result(input: Seq<char>) -> Result<(usize, usize), ErrorView> {
    if occurrences(input, ',') != 1 {
        Err(ErrorView::InvalidGridSize(input))
    } else {
        let k = first_index(input, ',');
        let rows_text = input.subrange(0, k);
        let cols_text = input.subrange(k + 1, input.len() as int);
        match grid_dimension(rows_text) {
            None => Err(ErrorView::InvalidGridSize(rows_text)),
            Some(rows) => match grid_dimension(cols_text) {
                None => Err(ErrorView::InvalidGridSize(cols_text)),
                Some(cols) => Ok((rows, cols)),
            },
        }
    }
}

/// Whether `arg` begins with `prefix`.
pub open spec fn has_prefix(arg: Seq<char>, prefix: Seq<char>) -> bool {
    prefix.len() <= arg.len() && arg.subrange(0, prefix.len() as int) == prefix
}

/// The settings after the argument `arg`, or the error it gives.
pub open spec fn apply_arg(s: SettingsView, arg: Seq<char>) -> Result<SettingsView, ErrorView> {
    if arg == "--help"@ {
        Ok(SettingsView { help: true, ..s })
    } else if arg == "--load"@ {
        Ok(SettingsView { load_from_save_file: true, ..s })
    } else if has_prefix(arg, "--grid="@) {
        match grid_size_result(arg.skip("--grid="@.len() as int)) {
            Ok(size) => Ok(SettingsView { grid_size: size, ..s }),
            Err(e) => Err(e),
        }
    } else if has_prefix(arg, "--tty="@) {
        Ok(SettingsView { tty_path: Some(arg.skip("--tty="@.len() as int)), ..s })
    } else {
        Err(ErrorView::InvalidCommandLineArgument(arg))
    }
}

/// The settings after the arguments `args` in order, or the first error.
pub open spec fn apply_args(s: SettingsView, args: Seq<Seq<char>>) -> Result<SettingsView, ErrorView>
    decreases args.len(),
{
    if args.len() == 0 {
        Ok(s)
    } else {
        match apply_args(s, args.drop_last()) {
            Ok(t) => apply_arg(t, args.last()),
            Err(e) => Err(e),
        }
    }
}

/// The usage page.
pub open spec fn usage_text() -> Seq<char> {
    USAGE_LITERAL@
}

impl AppSettings {
    /// Build settings from the command line arguments (the program name
    /// excluded), each read in turn; fails at the first invalid argument.
    pub fn try_from_args(args: &Vec<String>) -> (r: Result<Self, MyError>)
        ensures
            r matches Ok(s) ==> apply_args(default_settings(), args@.map_values(|a: String| a@))
                == Ok::<SettingsView, ErrorView>(s@),
            r matches Err(e) ==> apply_args(default_settings(), args@.map_values(|a: String| a@))
                == Err::<SettingsView, ErrorView>(e@),
    {
        let mut settings = Self::default();
        let mut i: usize = 0;
        while i < args.len()
            invariant
                i <= args@.len(),
                apply_args(default_settings(), args@.map_values(|a: String| a@).take(i as int))
                    == Ok::<SettingsView, ErrorView>(settings@),
            decreases args@.len() - i,
        {
            let ghost views = args@.map_values(|a: String| a@);
            assert(views.take(i + 1).drop_last() =~= views.take(i as int));
            assert(views.take(i + 1).last() == args@[i as int]@);
            let result = settings.parse_arg(args[i].as_str());
            match result {
                Ok(()) => {},
                Err(e) => {
                    proof {
                        lemma_apply_args_stops(views, (i + 1) as nat, e@);
                    }
                    return Err(e);
                },
            }
            i = i + 1;
        }
        assert(args@.map_values(|a: String| a@).take(args@.len() as int) =~= args@.map_values(
            |a: String| a@,
        ));
        Ok(settings)
    }

    /// Process a command line argument, which must always be a complete flag,
    /// with its values given in this format:
    /// ---flag=value1,value2
    pub fn parse_arg(&mut self, arg: &str) -> (r: Result<(), MyError>)
        ensures
            r is Ok ==> apply_arg(old(self)@, arg@) == Ok::<SettingsView, ErrorView>(final(self)@),
            r matches Err(e) ==> apply_arg(old(self)@, arg@) == Err::<SettingsView, ErrorView>(e@)
                && final(self)@ == old(self)@,
    {
        let help_flag = "--help";
        let load_flag = "--load";
        let grid_size_prefix = "--grid=";
        let tty_prefix = "--tty=";

        if str_equals(arg, help_flag) {
            self.help = true;
        } else if str_equals(arg, load_flag) {
            self.load_from_save_file = true;
        } else if starts_with(arg, grid_size_prefix) {
            let input = arg.substring_char(grid_size_prefix.unicode_len(), arg.unicode_len());
            assert(input@ =~= arg@.skip("--grid="@.len() as int));
            match Self::parse_grid_size(input) {
                Ok(size) => {
                    self.grid_size = size;
                },
                Err(e) => {
                    return Err(e);
                },
            }
        } else if starts_with(arg, tty_prefix) {
            let tty_path = arg.substring_char(tty_prefix.unicode_len(), arg.unicode_len());
            assert(tty_path@ =~= arg@.skip("--tty="@.len() as int));
            self.tty_path = Some(tty_path.to_owned());
        } else {
            return Err(MyError::InvalidCommandLineArgument { arg: arg.to_owned() });
        }
        Ok(())
    }

    /// Parse the grid dimensions (2 numbers).
    /// Example input format: "NUM_ROWS,NUM_COLS"
    pub fn parse_grid_size(input: &str) -> (r: Result<(usize, usize), MyError>)
        ensures
            r matches Ok(size) ==> grid_size_result(input@) == Ok::<(usize, usize), ErrorView>(size),
            r matches Err(e) ==> grid_size_result(input@) == Err::<(usize, usize), ErrorView>(e@),
    {
        let len = input.unicode_len();
        let mut commas: usize = 0;
        let mut first_comma: usize = len;
        let mut i: usize = 0;
        while i < len
            invariant
                len == input@.len(),
                i <= len,
                commas <= i,
                commas == occurrences(input@.subrange(0, i as int), ','),
                commas == 0 ==> first_comma == len && forall|k: int| 0 <= k < i ==> #[trigger] input@[k] != ',',
                commas > 0 ==> first_comma < i && first_comma == first_index(input@, ','),
            decreases len - i,
        {
            assert(input@.subrange(0, i + 1).drop_last() =~= input@.subrange(0, i as int));
            if input.get_char(i) == ',' {
                if commas == 0 {
                    first_comma = i;
                    proof {
                        lemma_first_index(input@, ',', i as int);
                    }
                }
                commas = commas + 1;
            }
            i = i + 1;
        }
        assert(input@.subrange(0, len as int) =~= input@);
        if commas != 1 {
            return Err(MyError::InvalidGridSize { expr: input.to_owned() });
        }
        let rows_text = input.substring_char(0, first_comma);
        let cols_text = input.substring_char(first_comma + 1, len);
        let num_rows = Self::parse_grid_dimension(rows_text)?;
        let num_cols = Self::parse_grid_dimension(cols_text)?;
        Ok((num_rows, num_cols))
    }

    /// Parse a single grid dimension, which must be a positive integer >= 2.
    pub fn parse_grid_dimension(input: &str) -> (r: Result<usize, MyError>)
        ensures
            r matches Ok(n) ==> grid_dimension(input@) == Some(n),
            r matches Err(e) ==> grid_dimension(input@) is None && e@ == ErrorView::InvalidGridSize(input@),
    {
        let len = input.unicode_len();
        let (start, end) = trim_bounds(input, 0, len);
        assert(input@.subrange(0, len as int) =~= input@);
        match parse_unsigned(input, start, end, usize::MAX as u64) {
            None => Err(MyError::InvalidGridSize { expr: input.to_owned() }),
            Some(n) => {
                if n == 0 || n == 1 {
                    Err(MyError::InvalidGridSize { expr: input.to_owned() })
                } else {
                    Ok(n as usize)
                }
            },
        }
    }

    /// The usage page.
    pub fn get_usage() -> (r: &'static str)
        ensures
            r@ == usage_text(),
    {
        USAGE_LITERAL
    }
}

/// The first index of `c` in `s`, given that it is at `i`.
proof fn lemma_first_index(s: Seq<char>, c: char, i: int)
    requires
        0 <= i < s.len(),
        s[i] == c,
        forall|k: int| 0 <= k < i ==> #[trigger] s[k] != c,
    ensures
        first_index(s, c) == i,
    decreases i,
{
    if i > 0 {
        lemma_first_index(s.drop_first(), c, i - 1);
    }
}

/// Once an argument fails, the arguments fail with its error.
proof fn lemma_apply_args_stops(args: Seq<Seq<char>>, n: nat, e: ErrorView)
    requires
        n <= args.len(),
        n > 0,
        apply_args(default_settings(), args.take(n as int)) == Err::<SettingsView, ErrorView>(e),
    ensures
        apply_args(default_settings(), args) == Err::<SettingsView, ErrorView>(e),
    decreases args.len() - n,
{
    if n < args.len() {
        assert(args.take((n + 1) as int).drop_last() =~= args.take(n as int));
        lemma_apply_args_stops(args, n + 1, e);
    } else {
        assert(args.take(n as int) =~= args);
    }
}

/// The text of the usage page.
pub const USAGE_LITERAL: &'static str = "Usage:
Run the game directly with optional command line flags.
rusty_2048 [ <flag> ... ]

Run the game from cargo with optional command line flags.
cargo run -- [ <flag> ... ]

Command line flags:
  --help                            Show this usage page.
  --load                            Load the game from save file.
  --grid=<num_rows>,<num_cols>      Start the game with a specific grid size.
  --tty=<tty_path>                  Enable logging to a specific tty.

Keyboard Controls in Game:
  [ Q ]                             Close the app.
  [ R ]                             Start a new game.
  [ G ]                             Toggle grid visibility on/off.
  [ Z ]                             Toggle auto-play on/off.
  [ WASD ] or [ ARROW KEYS ]        Move all tiles toward a direction.

";

} // verus!
