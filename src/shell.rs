use vstd::prelude::*;

verus! {

/// The words of `s`: its maximal runs of non-whitespace characters, in order.
pub uninterp spec fn words_of(s: Seq<char>) -> Seq<Seq<char>>;

/// The texts of `v`'s strings.
pub open spec fn texts(v: Seq<String>) -> Seq<Seq<char>> {
    v.map_values(|s: String| s@)
}

/// Relies on `str::split_whitespace`: the words of the line, split at
/// Unicode whitespace, which depend on the line alone.
#[verifier::external_body]
fn split_words(s: &str) -> (r: Vec<String>)
    ensures
        texts(r@) == words_of(s@),
{
    s.split_whitespace().map(String::from).collect()
}

/// Whether `c` is an ASCII decimal digit.
pub open spec fn is_digit(c: char) -> bool {
    '0' <= c <= '9'
}

/// The number that the decimal digits `d` spell.
pub open spec fn decimal_value(d: Seq<char>) -> int
    decreases d.len(),
{
    if d.len() == 0 {
        0
    } else {
        decimal_value(d.drop_last()) * 10 + (d.last() as int - '0' as int)
    }
}

/// The `usize` that `s` spells in decimal, after an optional `+`; none if
/// `s` has no digits, holds anything else, or the value does not fit.
pub open spec fn usize_of(s: Seq<char>) -> Option<usize> {
    let d = if s.len() > 0 && s[0] == '+' {
        s.drop_first()
    } else {
        s
    };
    if d.len() > 0 && (forall|i: int| 0 <= i < d.len() ==> is_digit(#[trigger] d[i])) && decimal_value(
        d,
    ) <= usize::MAX {
        Some(decimal_value(d) as usize)
    } else {
        None
    }
}

/// Relies on `usize::from_str`: decimal digits after an optional `+`,
/// refused when empty, holding any other character, or too large.
#[verifier::external_body]
fn parse_usize(s: &str) -> (r: Option<usize>)
    ensures
        r == usize_of(s@),
{
    s.parse::<usize>().ok()
}

/// A shell command.
pub enum Command {
    ListVMs,
    CreateVM {
        name: String,
        ram: usize,
        cpus: usize,
        disk_image: String,
        iso_path: Option<String>,
    },
    UpdateVM { name: String, ram: Option<usize>, cpus: Option<usize> },
    DeleteVM { name: String },
    SnapshotVM { name: String, snapshot: String },
    RestoreVM { name: String, snapshot: String },
    BootVM { name: String },
    StopVM { name: String },
    ListSnapshots { name: String },
    Help,
    Unknown,
}

/// A shell command as values.
pub ghost enum CommandView {
    ListVMs,
    CreateVM {
        name: Seq<char>,
        ram: usize,
        cpus: usize,
        disk_image: Seq<char>,
        iso_path: Option<Seq<char>>,
    },
    UpdateVM { name: Seq<char>, ram: Option<usize>, cpus: Option<usize> },
    DeleteVM { name: Seq<char> },
    SnapshotVM { name: Seq<char>, snapshot: Seq<char> },
    RestoreVM { name: Seq<char>, snapshot: Seq<char> },
    BootVM { name: Seq<char> },
    StopVM { name: Seq<char> },
    ListSnapshots { name: Seq<char> },
    Help,
    Unknown,
}

impl View for Command {
    type V = CommandView;

    open spec fn view(&self) -> CommandView {
        match self {
            Command::ListVMs => CommandView::ListVMs,
            Command::CreateVM { name, ram, cpus, disk_image, iso_path } => CommandView::CreateVM {
                name: name@,
                ram: *ram,
                cpus: *cpus,
                disk_image: disk_image@,
                iso_path: match iso_path {
                    Some(p) => Some(p@),
                    None => None,
                },
            },
            Command::UpdateVM { name, ram, cpus } => CommandView::UpdateVM {
                name: name@,
                ram: *ram,
                cpus: *cpus,
            },
            Command::DeleteVM { name } => CommandView::DeleteVM { name: name@ },
            Command::SnapshotVM { name, snapshot } => CommandView::SnapshotVM {
                name: name@,
                snapshot: snapshot@,
            },
            Command::RestoreVM { name, snapshot } => CommandView::RestoreVM {
                name: name@,
                snapshot: snapshot@,
            },
            Command::BootVM { name } => CommandView::BootVM { name: name@ },
            Command::StopVM { name } => CommandView::StopVM { name: name@ },
            Command::ListSnapshots { name } => CommandView::ListSnapshots { name: name@ },
            Command::Help => CommandView::Help,
            Command::Unknown => CommandView::Unknown,
        }
    }
}

/// The memory and processor counts that the options `rest[i..]` of
/// `update-vm` set, starting from `ram` and `cpus`: `--ram <n>` and
/// `--cpus <n>` set one (to none when `<n>` is no number), later ones win,
/// and any other word is skipped.
pub open spec fn update_options(rest: Seq<Seq<char>>, i: int, ram: Option<usize>, cpus: Option<usize>) -> (
    Option<usize>,
    Option<usize>,
)
    decreases rest.len() - i,
{
    if i < 0 || i >= rest.len() {
        (ram, cpus)
    } else if rest[i] == "--ram"@ && i + 1 < rest.len() {
        update_options(rest, i + 2, usize_of(rest[i + 1]), cpus)
    } else if rest[i] == "--cpus"@ && i + 1 < rest.len() {
        update_options(rest, i + 2, ram, usize_of(rest[i + 1]))
    } else {
        update_options(rest, i + 1, ram, cpus)
    }
}

/// The number in `s`, or zero when it is none.
pub open spec fn count_or_zero(s: Seq<char>) -> usize {
    match usize_of(s) {
        Some(n) => n,
        None => 0,
    }
}

/// The command that the words `ts` of a line spell.
pub open spec fn command_of(ts: Seq<Seq<char>>) -> CommandView {
    let n = ts.len();
    if n == 0 {
        CommandView::Unknown
    } else if n == 1 && ts[0] == "list-vms"@ {
        CommandView::ListVMs
    } else if (n == 5 || n == 6) && ts[0] == "create-vm"@ {
        CommandView::CreateVM {
            name: ts[1],
            ram: count_or_zero(ts[2]),
            cpus: count_or_zero(ts[3]),
            disk_image: ts[4],
            iso_path: if n == 6 {
                Some(ts[5])
            } else {
                None
            },
        }
    } else if n >= 2 && ts[0] == "update-vm"@ {
        let opts = update_options(ts.subrange(2, n as int), 0, None, None);
        CommandView::UpdateVM { name: ts[1], ram: opts.0, cpus: opts.1 }
    } else if n == 2 && ts[0] == "delete-vm"@ {
        CommandView::DeleteVM { name: ts[1] }
    } else if n == 3 && ts[0] == "snapshot-vm"@ {
        CommandView::SnapshotVM { name: ts[1], snapshot: ts[2] }
    } else if n == 3 && ts[0] == "restore-vm"@ {
        CommandView::RestoreVM { name: ts[1], snapshot: ts[2] }
    } else if n == 2 && ts[0] == "boot-vm"@ {
        CommandView::BootVM { name: ts[1] }
    } else if n == 2 && ts[0] == "stop-vm"@ {
        CommandView::StopVM { name: ts[1] }
    } else if n == 2 && ts[0] == "list-snapshots"@ {
        CommandView::ListSnapshots { name: ts[1] }
    } else if n == 1 && ts[0] == "help"@ {
        CommandView::Help
    } else {
        CommandView::Unknown
    }
}

/// Whether `t` is the word `w`.
fn is_word(t: &String, w: &str) -> (r: bool)
    ensures
        r == (t@ == w@),
{
    let k = w.to_owned();
    t.eq(&k)
}

/// A copy of `t`.
fn copy_word(t: &String) -> (r: String)
    ensures
        r@ == t@,
{
    t.as_str().to_owned()
}

/// The command that the words `tokens` of a line spell.
pub fn parse_words(tokens: &Vec<String>) -> (r: Command)
    ensures
        r@ == command_of(texts(tokens@)),
{
    let ghost ts = texts(tokens@);
    let n = tokens.len();
    assert(ts.len() == n);
    assert(forall|i: int| 0 <= i < n ==> #[trigger] ts[i] == tokens@[i]@);
    if n == 0 {
        return Command::Unknown;
    }
    let head = &tokens[0];
    if n == 1 && is_word(head, "list-vms") {
        Command::ListVMs
    } else if (n == 5 || n == 6) && is_word(head, "create-vm") {
        let ram = match parse_usize(tokens[2].as_str()) {
            Some(v) => v,
            None => 0,
        };
        let cpus = match parse_usize(tokens[3].as_str()) {
            Some(v) => v,
            None => 0,
        };
        let iso_path = if n == 6 {
            Some(copy_word(&tokens[5]))
        } else {
            None
        };
        Command::CreateVM {
            name: copy_word(&tokens[1]),
            ram,
            cpus,
            disk_image: copy_word(&tokens[4]),
            iso_path,
        }
    } else if n >= 2 && is_word(head, "update-vm") {
        let ghost rest = ts.subrange(2, n as int);
        let mut ram: Option<usize> = None;
        let mut cpus: Option<usize> = None;
        let mut i: usize = 2;
        while i < n
            invariant
                n == tokens@.len(),
                ts == texts(tokens@),
                rest == ts.subrange(2, n as int),
                2 <= i <= n + 1,
                forall|k: int| 0 <= k < n ==> #[trigger] ts[k] == tokens@[k]@,
                update_options(rest, i - 2, ram, cpus) == update_options(rest, 0, None, None),
            decreases n + 1 - i,
        {
            if is_word(&tokens[i], "--ram") && i + 1 < n {
                ram = parse_usize(tokens[i + 1].as_str());
                i = i + 2;
            } else if is_word(&tokens[i], "--cpus") && i + 1 < n {
                cpus = parse_usize(tokens[i + 1].as_str());
                i = i + 2;
            } else {
                i = i + 1;
            }
        }
        Command::UpdateVM { name: copy_word(&tokens[1]), ram, cpus }
    } else if n == 2 && is_word(head, "delete-vm") {
        Command::DeleteVM { name: copy_word(&tokens[1]) }
    } else if n == 3 && is_word(head, "snapshot-vm") {
        Command::SnapshotVM { name: copy_word(&tokens[1]), snapshot: copy_word(&tokens[2]) }
    } else if n == 3 && is_word(head, "restore-vm") {
        Command::RestoreVM { name: copy_word(&tokens[1]), snapshot: copy_word(&tokens[2]) }
    } else if n == 2 && is_word(head, "boot-vm") {
        Command::BootVM { name: copy_word(&tokens[1]) }
    } else if n == 2 && is_word(head, "stop-vm") {
        Command::StopVM { name: copy_word(&tokens[1]) }
    } else if n == 2 && is_word(head, "list-snapshots") {
        Command::ListSnapshots { name: copy_word(&tokens[1]) }
    } else if n == 1 && is_word(head, "help") {
        Command::Help
    } else {
        Command::Unknown
    }
}

/// The command that `input` spells, word by word.
pub fn parse_command(input: &str) -> (r: Command)
    ensures
        r@ == command_of(words_of(input@)),
{
    let tokens = split_words(input);
    parse_words(&tokens)
}

} // verus!
