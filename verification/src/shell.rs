//! Completion scripts for Bash, Zsh and Fish. Each script hands the words
//! being completed back to the program (with `<NAME>_COMPLETE` set to the
//! shell's name) and shows the candidates and help lines it prints.

use vstd::prelude::*;
use crate::command::Command;
use crate::text::{push_str_chars, str_chars, string_from_chars};

verus! {

/// The shells for which a completion script can be generated.
#[derive(Debug, Clone, Copy)]
pub enum Shell {
    /// Bash.
    Bash,
    /// Zsh.
    Zsh,
    /// Fish.
    Fish,
}

/// What `str::to_uppercase` gives for a string: its Unicode upper-case
/// mapping, a function of the characters alone.
pub uninterp spec fn upper_case(s: Seq<char>) -> Seq<char>;

/// Calls `str::to_uppercase`; the contract says only that the result is
/// the upper-case mapping of the argument, by name.
#[verifier::external_body]
fn to_upper(s: &str) -> (r: String)
    ensures
        r@ == upper_case(s@),
{
    s.to_uppercase()
}

/// The start of the bash completion script for a program called `name`:
/// everything before the line that calls the program.
pub open spec fn bash_head(name: Seq<char>) -> Seq<char> {
    "# Bash completion for "@
        + name
        + "\n_"@
        + name
        + "_complete() {\n    local cur prev words cword\n    _get_comp_words_by_ref -n : cur prev words cword\n\n    # Call our binary with special completion env var\n    local IFS=$'\\n'\n    local response\n    response=$("@
}

/// What the bash script passes the program to ask for completions, after
/// `<NAME>`: the shell's name, the program, `__complete`, the words before
/// the cursor and the word being completed.
pub open spec fn bash_call() -> Seq<char> {
    "_COMPLETE=bash \"${words[0]}\" __complete \"${words[@]:1:$((cword-1))}\" \"$cur\""@
}

/// The rest of the bash completion script for a program called `name`:
/// reading the answer and registering the completion function.
pub open spec fn bash_tail(name: Seq<char>) -> Seq<char> {
    " 2>/dev/null)\n\n    if [[ -n \"$response\" ]]; then\n        # Use printf to handle each line separately\n        local lines=()\n        local help_messages=()\n        while IFS= read -r line; do\n            if [[ \"$line\" == _activehelp_* ]]; then\n                # Extract help message\n                help_messages+=(\"${line#_activehelp_ }\")\n            else\n                lines+=(\"$line\")\n            fi\n        done <<< \"$response\"\n        COMPREPLY=( \"${lines[@]}\" )\n\n        # Display help messages if any\n        if [[ ${#help_messages[@]} -gt 0 ]]; then\n            printf '\\n'\n            for msg in \"${help_messages[@]}\"; do\n                printf '%s\\n' \"$msg\"\n            done\n            printf '\\n'\n        fi\n    fi\n}\n\ncomplete -F _"@
        + name
        + "_complete "@
        + name
        + "\n"@
}

/// The bash completion script for a program called `name` (`upper` is
/// the name in upper case).
pub open spec fn bash_script(name: Seq<char>, upper: Seq<char>) -> Seq<char> {
    bash_head(name) + upper + bash_call() + bash_tail(name)
}

/// The bash script sends each completion request to the program as
/// `<NAME>_COMPLETE=bash "${words[0]}" __complete <the words before the
/// cursor> "$cur"`: the first argument after the program's name is
/// `__complete`, which the program requires of a completion request.
pub proof fn lemma_bash_script_sends_complete_marker(name: Seq<char>, upper: Seq<char>)
    ensures
        exists|p: Seq<char>, q: Seq<char>|
            bash_script(name, upper) == p + upper
                + "_COMPLETE=bash \"${words[0]}\" __complete \"${words[@]:1:$((cword-1))}\" \"$cur\""@
                + q,
{
    let p = bash_head(name);
    let q = bash_tail(name);
    assert(bash_script(name, upper) == p + upper
        + "_COMPLETE=bash \"${words[0]}\" __complete \"${words[@]:1:$((cword-1))}\" \"$cur\""@
        + q);
}

/// The zsh completion script for a program called `name` (`upper` is
/// the name in upper case).
pub open spec fn zsh_script(name: Seq<char>, upper: Seq<char>) -> Seq<char> {
    "#compdef -P "@
        + name
        + "\n# Zsh completion for "@
        + name
        + "\n\n_"@
        + name
        + "_complete() {\n    local -a completions\n    local IFS=$'\\n'\n\n    # Get the actual command from the command line\n    local cmd=\"${words[1]}\"\n    if [[ \"$cmd\" != /* ]] && ! command -v \"$cmd\" &>/dev/null; then\n        # If not found in PATH, try relative path\n        if [[ -x \"$cmd\" ]]; then\n            cmd=\"./$cmd\"\n        fi\n    fi\n\n    # Build completion arguments\n    local -a comp_line\n    comp_line=(\"__complete\")\n\n    # Add all words except the command name\n    local i\n    for (( i = 2; i < CURRENT; i++ )); do\n        comp_line+=(\"${words[$i]}\")\n    done\n\n    # Add the current word being completed\n    comp_line+=(\"${words[CURRENT]}\")\n\n    # Call the command with completion environment variable\n    local response\n    response=$("@
        + upper
        + "_COMPLETE=zsh \"$cmd\" \"${comp_line[@]}\" 2>/dev/null)\n\n    if [[ -n \"$response\" ]]; then\n        local -a values\n        local -a descriptions\n        local -a help_messages\n        local line\n\n        # Parse response lines\n        while IFS= read -r line; do\n            if [[ \"$line\" == _activehelp_::* ]]; then\n                # ActiveHelp message\n                help_messages+=(\"${line#_activehelp_::}\")\n            elif [[ \"$line\" == *:* ]]; then\n                # Line has description\n                values+=(\"${line%%:*}\")\n                descriptions+=(\"${line#*:}\")\n            else\n                # No description\n                values+=(\"$line\")\n                descriptions+=(\"\")\n            fi\n        done <<< \"$response\"\n\n        # Display ActiveHelp messages if any\n        if [[ ${#help_messages[@]} -gt 0 ]]; then\n            local formatted_help=()\n            for msg in \"${help_messages[@]}\"; do\n                formatted_help+=(\"-- $msg --\")\n            done\n            compadd -x \"${(j: :)formatted_help}\"\n        fi\n\n        # Add completions with descriptions\n        if [[ ${#descriptions[@]} -gt 0 ]] && [[ -n \"${descriptions[*]// }\" ]]; then\n            compadd -Q -d descriptions -a values\n        else\n            compadd -Q -a values\n        fi\n    fi\n}\n\ncompdef _"@
        + name
        + "_complete "@
        + name
        + "\n"@
}

/// The fish completion script for a program called `name` (`upper` is
/// the name in upper case).
pub open spec fn fish_script(name: Seq<char>, upper: Seq<char>) -> Seq<char> {
    "# Fish completion for "@
        + name
        + "\nfunction __"@
        + name
        + "_complete\n    set -l cmd (commandline -opc)\n    set -l cursor (commandline -C)\n    set -l current (commandline -ct)\n\n    # Call our binary with special completion env var\n    set -l response (env "@
        + upper
        + "_COMPLETE=fish $cmd[1] __complete $cmd[2..-1] $current 2>/dev/null)\n\n    # Process response and handle ActiveHelp\n    set -l help_messages\n    for line in $response\n        if string match -q '_activehelp_*' -- $line\n            # Extract help message\n            set -a help_messages (string replace '_activehelp_\t' '' -- $line)\n        else\n            echo $line\n        end\n    end\n\n    # Display help messages if any\n    if test (count $help_messages) -gt 0\n        for msg in $help_messages\n            echo \"» $msg\" >&2\n        end\n    end\nend\n\ncomplete -c "@
        + name
        + " -f -a '(__"@
        + name
        + "_complete)'\n"@
}

fn bash_script_text(name: &str, upper: &str) -> (r: String)
    ensures
        r@ == bash_script(name@, upper@),
{
    let mut out = str_chars("# Bash completion for ");
    push_str_chars(&mut out, name);
    push_str_chars(&mut out, "\n_");
    push_str_chars(&mut out, name);
    push_str_chars(&mut out, "_complete() {\n    local cur prev words cword\n    _get_comp_words_by_ref -n : cur prev words cword\n\n    # Call our binary with special completion env var\n    local IFS=$'\\n'\n    local response\n    response=$(");
    push_str_chars(&mut out, upper);
    push_str_chars(&mut out, "_COMPLETE=bash \"${words[0]}\" __complete \"${words[@]:1:$((cword-1))}\" \"$cur\"");
    push_str_chars(&mut out, " 2>/dev/null)\n\n    if [[ -n \"$response\" ]]; then\n        # Use printf to handle each line separately\n        local lines=()\n        local help_messages=()\n        while IFS= read -r line; do\n            if [[ \"$line\" == _activehelp_* ]]; then\n                # Extract help message\n                help_messages+=(\"${line#_activehelp_ }\")\n            else\n                lines+=(\"$line\")\n            fi\n        done <<< \"$response\"\n        COMPREPLY=( \"${lines[@]}\" )\n\n        # Display help messages if any\n        if [[ ${#help_messages[@]} -gt 0 ]]; then\n            printf '\\n'\n            for msg in \"${help_messages[@]}\"; do\n                printf '%s\\n' \"$msg\"\n            done\n            printf '\\n'\n        fi\n    fi\n}\n\ncomplete -F _");
    push_str_chars(&mut out, name);
    push_str_chars(&mut out, "_complete ");
    push_str_chars(&mut out, name);
    push_str_chars(&mut out, "\n");
    string_from_chars(&out)
}

fn zsh_script_text(name: &str, upper: &str) -> (r: String)
    ensures
        r@ == zsh_script(name@, upper@),
{
    let mut out = str_chars("#compdef -P ");
    push_str_chars(&mut out, name);
    push_str_chars(&mut out, "\n# Zsh completion for ");
    push_str_chars(&mut out, name);
    push_str_chars(&mut out, "\n\n_");
    push_str_chars(&mut out, name);
    push_str_chars(&mut out, "_complete() {\n    local -a completions\n    local IFS=$'\\n'\n\n    # Get the actual command from the command line\n    local cmd=\"${words[1]}\"\n    if [[ \"$cmd\" != /* ]] && ! command -v \"$cmd\" &>/dev/null; then\n        # If not found in PATH, try relative path\n        if [[ -x \"$cmd\" ]]; then\n            cmd=\"./$cmd\"\n        fi\n    fi\n\n    # Build completion arguments\n    local -a comp_line\n    comp_line=(\"__complete\")\n\n    # Add all words except the command name\n    local i\n    for (( i = 2; i < CURRENT; i++ )); do\n        comp_line+=(\"${words[$i]}\")\n    done\n\n    # Add the current word being completed\n    comp_line+=(\"${words[CURRENT]}\")\n\n    # Call the command with completion environment variable\n    local response\n    response=$(");
    push_str_chars(&mut out, upper);
    push_str_chars(&mut out, "_COMPLETE=zsh \"$cmd\" \"${comp_line[@]}\" 2>/dev/null)\n\n    if [[ -n \"$response\" ]]; then\n        local -a values\n        local -a descriptions\n        local -a help_messages\n        local line\n\n        # Parse response lines\n        while IFS= read -r line; do\n            if [[ \"$line\" == _activehelp_::* ]]; then\n                # ActiveHelp message\n                help_messages+=(\"${line#_activehelp_::}\")\n            elif [[ \"$line\" == *:* ]]; then\n                # Line has description\n                values+=(\"${line%%:*}\")\n                descriptions+=(\"${line#*:}\")\n            else\n                # No description\n                values+=(\"$line\")\n                descriptions+=(\"\")\n            fi\n        done <<< \"$response\"\n\n        # Display ActiveHelp messages if any\n        if [[ ${#help_messages[@]} -gt 0 ]]; then\n            local formatted_help=()\n            for msg in \"${help_messages[@]}\"; do\n                formatted_help+=(\"-- $msg --\")\n            done\n            compadd -x \"${(j: :)formatted_help}\"\n        fi\n\n        # Add completions with descriptions\n        if [[ ${#descriptions[@]} -gt 0 ]] && [[ -n \"${descriptions[*]// }\" ]]; then\n            compadd -Q -d descriptions -a values\n        else\n            compadd -Q -a values\n        fi\n    fi\n}\n\ncompdef _");
    push_str_chars(&mut out, name);
    push_str_chars(&mut out, "_complete ");
    push_str_chars(&mut out, name);
    push_str_chars(&mut out, "\n");
    string_from_chars(&out)
}

fn fish_script_text(name: &str, upper: &str) -> (r: String)
    ensures
        r@ == fish_script(name@, upper@),
{
    let mut out = str_chars("# Fish completion for ");
    push_str_chars(&mut out, name);
    push_str_chars(&mut out, "\nfunction __");
    push_str_chars(&mut out, name);
    push_str_chars(&mut out, "_complete\n    set -l cmd (commandline -opc)\n    set -l cursor (commandline -C)\n    set -l current (commandline -ct)\n\n    # Call our binary with special completion env var\n    set -l response (env ");
    push_str_chars(&mut out, upper);
    push_str_chars(&mut out, "_COMPLETE=fish $cmd[1] __complete $cmd[2..-1] $current 2>/dev/null)\n\n    # Process response and handle ActiveHelp\n    set -l help_messages\n    for line in $response\n        if string match -q '_activehelp_*' -- $line\n            # Extract help message\n            set -a help_messages (string replace '_activehelp_\t' '' -- $line)\n        else\n            echo $line\n        end\n    end\n\n    # Display help messages if any\n    if test (count $help_messages) -gt 0\n        for msg in $help_messages\n            echo \"» $msg\" >&2\n        end\n    end\nend\n\ncomplete -c ");
    push_str_chars(&mut out, name);
    push_str_chars(&mut out, " -f -a '(__");
    push_str_chars(&mut out, name);
    push_str_chars(&mut out, "_complete)'\n");
    string_from_chars(&out)
}

/// The script that `shell` runs to complete the program `name`.
pub open spec fn script_for(shell: Shell, name: Seq<char>) -> Seq<char> {
    match shell {
        Shell::Bash => bash_script(name, upper_case(name)),
        Shell::Zsh => zsh_script(name, upper_case(name)),
        Shell::Fish => fish_script(name, upper_case(name)),
    }
}

impl Command {
    /// The completion script for `shell`, built around this command's
    /// name (and the name in upper case, for the environment variable).
    pub fn generate_completion(&self, shell: Shell) -> (r: String)
        ensures
            r@ == script_for(shell, self.spec_name()),
    {
        let name = self.name();
        let upper = to_upper(name);
        match shell {
            Shell::Bash => bash_script_text(name, upper.as_str()),
            Shell::Zsh => zsh_script_text(name, upper.as_str()),
            Shell::Fish => fish_script_text(name, upper.as_str()),
        }
    }
}

} // verus!
