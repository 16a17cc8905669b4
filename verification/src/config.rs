//! The settings that the decisions depend on.
use vstd::prelude::*;

use crate::args::Args;
use crate::args::ArgsView;
use crate::style::Colors;
use crate::text;

verus! {

/// The settings.
pub struct Config {
    pub color: Colors,
    /// The width of the terminal, where it is known.
    pub cols: Option<usize>,
    /// The command line as the user gave it.
    pub args: Args,
    /// The options that every call of the package manager gets.
    pub globals: Args,
    pub targets: Vec<String>,
    pub op: String,
    /// `aur` or `repo` to look at one side only.
    pub mode: String,
    pub provides: bool,
    /// Whether repository and AUR packages are upgraded in one go.
    pub combined_upgrade: bool,
    pub sudo_loop: bool,
    pub no_confirm: bool,
    pub use_ask: bool,
    pub devel: bool,
    /// Whether installing waits until something needs what was built.
    pub batch_install: bool,
    pub clean_after: bool,
    pub pgp_fetch: bool,
    /// `yes` to rebuild targets, `all` to rebuild everything.
    pub rebuild: String,
    /// `ask` or `yes` to remove make dependencies after installing.
    pub remove_make: String,
    /// `all` to download every PKGBUILD again.
    pub redownload: String,
    /// Further options for makepkg.
    pub mflags: Vec<String>,
    pub asp_bin: String,
    pub aur_url: String,
    /// The architecture of this machine.
    pub arch: String,
    pub ignore_pkg: Vec<String>,
}

#[verifier::ext_equal]
pub struct ConfigView {
    pub color: Colors,
    pub cols: Option<usize>,
    pub args: ArgsView,
    pub globals: ArgsView,
    pub targets: Seq<Seq<char>>,
    pub op: Seq<char>,
    pub mode: Seq<char>,
    pub provides: bool,
    pub combined_upgrade: bool,
    pub sudo_loop: bool,
    pub no_confirm: bool,
    pub use_ask: bool,
    pub devel: bool,
    pub batch_install: bool,
    pub clean_after: bool,
    pub pgp_fetch: bool,
    pub rebuild: Seq<char>,
    pub remove_make: Seq<char>,
    pub redownload: Seq<char>,
    pub mflags: Seq<Seq<char>>,
    pub asp_bin: Seq<char>,
    pub aur_url: Seq<char>,
    pub arch: Seq<char>,
    pub ignore_pkg: Seq<Seq<char>>,
}

impl View for Config {
    type V = ConfigView;

    open spec fn view(&self) -> ConfigView {
        ConfigView {
            color: self.color,
            cols: self.cols,
            args: self.args@,
            globals: self.globals@,
            targets: text::views(self.targets@),
            op: self.op@,
            mode: self.mode@,
            provides: self.provides,
            combined_upgrade: self.combined_upgrade,
            sudo_loop: self.sudo_loop,
            no_confirm: self.no_confirm,
            use_ask: self.use_ask,
            devel: self.devel,
            batch_install: self.batch_install,
            clean_after: self.clean_after,
            pgp_fetch: self.pgp_fetch,
            rebuild: self.rebuild@,
            remove_make: self.remove_make@,
            redownload: self.redownload@,
            mflags: text::views(self.mflags@),
            asp_bin: self.asp_bin@,
            aur_url: self.aur_url@,
            arch: self.arch@,
            ignore_pkg: text::views(self.ignore_pkg@),
        }
    }
}

impl Config {
    /// A copy of the user's command line.
    pub fn pacman_args(&self) -> (r: Args)
        ensures
            r@ == self@.args,
    {
        self.args.clone()
    }

    /// A copy of the options that every call of the package manager gets.
    pub fn pacman_globals(&self) -> (r: Args)
        ensures
            r@ == self@.globals,
    {
        self.globals.clone()
    }
}

} // verus!
