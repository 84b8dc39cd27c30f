//! The shell function that `init` prints.
use vstd::prelude::*;

verus! {

/// The `b` shell function and the state-directory setup that precedes it.
pub const SHELL_FUNCTION: &'static str = r#"if [ -z "${BMERSIVE_STATE_DIR:-}" ]; then
  export BMERSIVE_STATE_DIR="${XDG_RUNTIME_DIR:-${TMPDIR:-/tmp}}/bmersive-${USER:-unknown}-$$"
fi

b() {
  if [ "$#" -eq 0 ]; then
    if ! bmersive session current >/dev/null 2>&1; then
      bmersive session choose || return
      _bmersive_target="$(bmersive path 0 2>/dev/null)" && cd "$_bmersive_target"
      unset _bmersive_target
      return
    fi
    bmersive ls
    return
  fi

  case "$1" in
    session)
      _bmersive_session_command="${2:-}"
      shift
      bmersive session "$@" || return
      case "$_bmersive_session_command" in
        use|choose)
          case " $* " in
            *" --no-jump "*) ;;
            *)
              _bmersive_target="$(bmersive path 0 2>/dev/null)" && cd "$_bmersive_target"
              unset _bmersive_target
              ;;
          esac
          ;;
      esac
      unset _bmersive_session_command
      ;;
    add)
      shift
      bmersive add "$@"
      ;;
    rm)
      shift
      bmersive rm "$@"
      ;;
    tmux)
      shift
      bmersive tmux "$@"
      ;;
    *)
      case "$1" in
        *[!0-9]*)
          bmersive "$@"
          ;;
        *)
          cd "$(bmersive path "$1")"
          ;;
      esac
      ;;
  esac
}"#;

/// The shell code that `init` prints for either supported shell.
pub fn shell_function() -> (r: &'static str)
    ensures
        r@ == SHELL_FUNCTION@,
{
    SHELL_FUNCTION
}

} // verus!
