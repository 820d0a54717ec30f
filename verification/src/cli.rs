//! Command-line options of the content importer.

use crate::progression::views;
use crate::text::{append_str, chars_of, matches_at, matches_at_exec, same_text};
use vstd::prelude::*;

verus! {

/// The development database, the default target.
pub const DEFAULT_DATABASE: &'static str = "rocknrolladb-dev";

/// The default server.
pub const DEFAULT_SERVER: &'static str = "maincloud";

/// The importer's options.
pub struct Options {
    pub dry_run: bool,
    pub database: String,
    pub server: String,
    pub paths: Vec<String>,
}

/// The importer's options as a mathematical value.
pub struct OptionsView {
    pub dry_run: bool,
    pub database: Seq<char>,
    pub server: Seq<char>,
    pub paths: Seq<Seq<char>>,
}

impl View for Options {
    type V = OptionsView;

    open spec fn view(&self) -> OptionsView {
        OptionsView {
            dry_run: self.dry_run,
            database: self.database@,
            server: self.server@,
            paths: views(self.paths@),
        }
    }
}

/// The options before any argument is read.
pub open spec fn default_options() -> OptionsView {
    OptionsView { dry_run: false, database: DEFAULT_DATABASE@, server: DEFAULT_SERVER@, paths: Seq::empty() }
}

/// Whether `s` begins with `p`.
pub open spec fn starts_with(s: Seq<char>, p: Seq<char>) -> bool {
    matches_at(s, p, 0)
}

/// The options once the arguments from position `i` on are read into `acc`:
/// `--dry-run`; `--database` and `--server`, each taking the next argument
/// as its value; any other argument starting with `--` is an unknown flag;
/// anything else is an input path.
pub open spec fn options_from(args: Seq<Seq<char>>, i: int, acc: OptionsView) -> Result<OptionsView, Seq<char>>
    decreases args.len() - i,
{
    if i < 0 || i >= args.len() {
        Ok(acc)
    } else {
        let a = args[i];
        if a == "--dry-run"@ {
            options_from(args, i + 1, OptionsView { dry_run: true, ..acc })
        } else if a == "--database"@ {
            if i + 1 < args.len() {
                options_from(args, i + 2, OptionsView { database: args[i + 1], ..acc })
            } else {
                Err("--database needs a value"@)
            }
        } else if a == "--server"@ {
            if i + 1 < args.len() {
                options_from(args, i + 2, OptionsView { server: args[i + 1], ..acc })
            } else {
                Err("--server needs a value"@)
            }
        } else if starts_with(a, "--"@) {
            Err("unknown flag '"@ + a + "'"@)
        } else {
            options_from(args, i + 1, OptionsView { paths: acc.paths.push(a), ..acc })
        }
    }
}

/// The options the arguments give, which must name at least one path.
pub open spec fn options_of(args: Seq<Seq<char>>) -> Result<OptionsView, Seq<char>> {
    match options_from(args, 0, default_options()) {
        Err(e) => Err(e),
        Ok(o) => if o.paths.len() == 0 {
            Err("no input paths given"@)
        } else {
            Ok(o)
        },
    }
}

/// The result of reading options as a mathematical value.
pub open spec fn options_result(r: Result<Options, String>) -> Result<OptionsView, Seq<char>> {
    match r {
        Ok(o) => Ok(o@),
        Err(m) => Err(m@),
    }
}

fn copy_text(s: &String) -> (c: String)
    ensures
        c@ == s@,
{
    s.clone()
}

/// Read the importer's arguments (after the subcommand).
pub fn parse_options(args: &[String]) -> (res: Result<Options, String>)
    ensures
        options_result(res) == options_of(views(args@)),
{
    let ghost all = views(args@);
    let mut options = Options {
        dry_run: false,
        database: DEFAULT_DATABASE.to_string(),
        server: DEFAULT_SERVER.to_string(),
        paths: Vec::new(),
    };
    proof {
        assert(views(options.paths@) =~= Seq::<Seq<char>>::empty());
        assert(options@ == default_options());
    }
    let dashes = chars_of("--");
    let mut i: usize = 0;
    while i < args.len()
        invariant
            i <= args@.len(),
            all == views(args@),
            dashes@ == "--"@,
            options_from(all, 0, default_options()) == options_from(all, i as int, options@),
        decreases args.len() - i,
    {
        let arg = &args[i];
        assert(all[i as int] == arg@);
        if same_text(arg.as_str(), "--dry-run") {
            options.dry_run = true;
            i = i + 1;
        } else if same_text(arg.as_str(), "--database") {
            if i + 1 >= args.len() {
                return Err("--database needs a value".to_string());
            }
            assert(all[i + 1] == args@[i + 1]@);
            options.database = copy_text(&args[i + 1]);
            i = i + 2;
        } else if same_text(arg.as_str(), "--server") {
            if i + 1 >= args.len() {
                return Err("--server needs a value".to_string());
            }
            assert(all[i + 1] == args@[i + 1]@);
            options.server = copy_text(&args[i + 1]);
            i = i + 2;
        } else if matches_at_exec(&chars_of(arg.as_str()), &dashes, 0) {
            let mut m = String::new();
            append_str(&mut m, "unknown flag '");
            append_str(&mut m, arg.as_str());
            append_str(&mut m, "'");
            return Err(m);
        } else {
            let ghost before = options@;
            options.paths.push(copy_text(arg));
            assert(options@.paths =~= before.paths.push(arg@));
            assert(options@ == OptionsView { paths: before.paths.push(arg@), ..before });
            i = i + 1;
        }
    }
    if options.paths.len() == 0 {
        return Err("no input paths given".to_string());
    }
    Ok(options)
}

} // verus!
