# aur_install

Installs packages from the Arch User Repository next to those of the repositories. The
decisions are a library whose behaviour is stated in contracts and proved with Verus; what
touches the package manager, the AUR, the disk and the terminal is ordinary Rust around it.

- `src/` is the library.
  - `install` leads from the command line to installed packages, `review` from resolved
    targets to approved files, `building` from approved files to installed packages. Each
    is a machine: it says what has to be done next, and takes what came of it.
  - `download` decides what is fetched and how that is told; `warnings` and `bases` sort
    what the AUR answers.
  - `actions` and `prompt` look over resolved targets and ask the user about them.
  - `pacman` and `args` make the calls of the package manager.
  - `package_list` and `srcinfo` read what `makepkg` prints and what a `.SRCINFO` says.
  - `text`, `table`, `style`, `error`, `package` and `config` hold what the others share.
- `tests/` runs the library on concrete values.
- `app/` runs the machines. `host.rs` lists what it needs from the program around it;
  `system.rs` needs libalpm.

Proof functions whose names begin with `law_` state what holds of the library as a whole.
