//! The command line: which role to run, and with which config file.
use vstd::prelude::*;
use vstd::string::*;
use crate::text;

verus! {

/// Which process to run.
#[derive(Debug, Clone, Copy, PartialEq, Eq, Structural)]
pub enum Role {
    /// Scrape, store, hot APIs and control API. `serve_ui` is true for the
    /// single-binary form, which also serves the dashboard.
    Worker {
        /// Serve the dashboard too.
        serve_ui: bool,
    },
    /// Read-only dashboard.
    Serve,
}

/// The argument at `i`, or the default config path.
pub open spec fn path_at(args: Seq<Seq<char>>, i: int) -> Seq<char> {
    if i < args.len() {
        args[i]
    } else {
        "collector.toml"@
    }
}

/// Role and config path that the arguments ask for: `serve [config]`,
/// `worker [config]`, or `[config]` for the single binary.
pub open spec fn invocation(args: Seq<Seq<char>>) -> (Role, Seq<char>) {
    if args.len() > 0 && args[0] == "serve"@ {
        (Role::Serve, path_at(args, 1))
    } else if args.len() > 0 && args[0] == "worker"@ {
        (Role::Worker { serve_ui: false }, path_at(args, 1))
    } else {
        (Role::Worker { serve_ui: true }, path_at(args, 0))
    }
}

/// The argument at `i`, or the default config path.
fn path_or_default(args: &Vec<String>, i: usize) -> (r: String)
    ensures
        r@ == path_at(args.deep_view(), i as int),
{
    if i < args.len() {
        args[i].clone()
    } else {
        "collector.toml".to_string()
    }
}

/// Role and config path from the arguments behind the program's name.
pub fn parse_args(args: &Vec<String>) -> (r: (Role, String))
    ensures
        (r.0, r.1@) == invocation(args.deep_view()),
{
    if args.len() > 0 {
        assert(args.deep_view()[0] == args@[0]@);
        if text::same(args[0].as_str(), "serve") {
            return (Role::Serve, path_or_default(args, 1));
        }
        if text::same(args[0].as_str(), "worker") {
            return (Role::Worker { serve_ui: false }, path_or_default(args, 1));
        }
    }
    (Role::Worker { serve_ui: true }, path_or_default(args, 0))
}

/// What the process calls itself.
pub fn role_name(role: Role) -> (r: &'static str)
    ensures
        r@ == match role {
            Role::Worker { serve_ui: true } => "collector (single binary)"@,
            Role::Worker { serve_ui: false } => "collector worker"@,
            Role::Serve => "collector dashboard"@,
        },
{
    match role {
        Role::Worker { serve_ui } => {
            if serve_ui {
                "collector (single binary)"
            } else {
                "collector worker"
            }
        },
        Role::Serve => "collector dashboard",
    }
}

/// The first argument names the role, and the next one the config file; any other
/// first argument is the config file of the single binary.
pub proof fn law_invocation(args: Seq<Seq<char>>)
    ensures
        args.len() == 0 ==> invocation(args) == (
            Role::Worker { serve_ui: true },
            "collector.toml"@,
        ),
        args.len() > 0 && args[0] == "serve"@ ==> (invocation(args).0 == Role::Serve),
        args.len() > 0 && args[0] == "worker"@ ==> (invocation(args).0 == Role::Worker {
            serve_ui: false,
        }),
        args.len() == 1 && (args[0] == "serve"@ || args[0] == "worker"@) ==> invocation(args).1
            == "collector.toml"@,
        args.len() > 1 && (args[0] == "serve"@ || args[0] == "worker"@) ==> invocation(args).1
            == args[1],
        args.len() > 0 && args[0] != "serve"@ && args[0] != "worker"@ ==> invocation(args) == (
            Role::Worker { serve_ui: true },
            args[0],
        ),
{
    reveal_strlit("serve");
    reveal_strlit("worker");
    assert("serve"@.len() == 5 && "worker"@.len() == 6);
}

}
