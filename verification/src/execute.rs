//! Reading a command line: quotes group words, unquoted spaces separate them.
use vstd::prelude::*;

verus! {

/// Separator that unquoted spaces become.
pub const SEP: char = '\0';

/// A command of the prompt.
#[derive(Debug)]
pub enum Command {
    /// An empty line.
    Nothing,
    /// `insert <key> <value>`
    Insert(String, String),
    /// `get <key>`
    Get(String),
    /// `info`
    Info,
    /// `exit`
    Exit,
    /// Anything else: the usage is shown.
    Usage,
}

/// The contents of a `Command`.
pub enum CommandView {
    Nothing,
    Insert(Seq<char>, Seq<char>),
    Get(Seq<char>),
    Info,
    Exit,
    Usage,
}

impl View for Command {
    type V = CommandView;

    open spec fn view(&self) -> CommandView {
        match self {
            Command::Nothing => CommandView::Nothing,
            Command::Insert(k, v) => CommandView::Insert(k@, v@),
            Command::Get(k) => CommandView::Get(k@),
            Command::Info => CommandView::Info,
            Command::Exit => CommandView::Exit,
            Command::Usage => CommandView::Usage,
        }
    }
}

/// Unicode White_Space, which `str::trim` removes.
pub open spec fn is_white_space(c: char) -> bool {
    let u = c as u32;
    ||| 0x09 <= u <= 0x0d
    ||| u == 0x20
    ||| u == 0x85
    ||| u == 0xa0
    ||| u == 0x1680
    ||| 0x2000 <= u <= 0x200a
    ||| u == 0x2028
    ||| u == 0x2029
    ||| u == 0x202f
    ||| u == 0x205f
    ||| u == 0x3000
}

pub open spec fn trim_start(s: Seq<char>) -> Seq<char>
    decreases s.len(),
{
    if s.len() > 0 && is_white_space(s[0]) {
        trim_start(s.drop_first())
    } else {
        s
    }
}

pub open spec fn trim_end(s: Seq<char>) -> Seq<char>
    decreases s.len(),
{
    if s.len() > 0 && is_white_space(s.last()) {
        trim_end(s.drop_last())
    } else {
        s
    }
}

/// `s` without its leading and trailing whitespace.
pub open spec fn spec_trim(s: Seq<char>) -> Seq<char> {
    trim_end(trim_start(s))
}

/// The characters kept from `s`, and whether a quote is open after it: quotes are
/// dropped and open or close a quote; outside quotes spaces become `SEP` and line
/// breaks are dropped.
pub open spec fn process_chars(s: Seq<char>) -> (Seq<char>, bool)
    decreases s.len(),
{
    if s.len() == 0 {
        (Seq::empty(), false)
    } else {
        let (out, quote) = process_chars(s.drop_last());
        let c = s.last();
        if c == '"' {
            (out, !quote)
        } else if c == ' ' && !quote {
            (out.push(SEP), quote)
        } else if c == '\n' && !quote {
            (out, quote)
        } else {
            (out.push(c), quote)
        }
    }
}

pub open spec fn spec_pre_process(buf: Seq<char>) -> Seq<char> {
    process_chars(spec_trim(buf)).0
}

/// The pieces of `s` cut at each `sep` so far, and the piece being read.
pub open spec fn split_acc(s: Seq<char>, sep: char) -> (Seq<Seq<char>>, Seq<char>)
    decreases s.len(),
{
    if s.len() == 0 {
        (Seq::empty(), Seq::empty())
    } else {
        let (parts, cur) = split_acc(s.drop_last(), sep);
        if s.last() == sep {
            (parts.push(cur), Seq::empty())
        } else {
            (parts, cur.push(s.last()))
        }
    }
}

/// The pieces of `s` between the occurrences of `sep`, as `str::split` gives them.
pub open spec fn spec_split(s: Seq<char>, sep: char) -> Seq<Seq<char>> {
    let (parts, cur) = split_acc(s, sep);
    parts.push(cur)
}

/// The command that the words of a line name.
pub open spec fn command_of(parts: Seq<Seq<char>>) -> CommandView {
    if parts.len() == 1 && parts[0].len() == 0 {
        CommandView::Nothing
    } else if parts.len() == 3 && parts[0] == seq!['i', 'n', 's', 'e', 'r', 't'] {
        CommandView::Insert(parts[1], parts[2])
    } else if parts.len() == 2 && parts[0] == seq!['g', 'e', 't'] {
        CommandView::Get(parts[1])
    } else if parts.len() == 1 && parts[0] == seq!['i', 'n', 'f', 'o'] {
        CommandView::Info
    } else if parts.len() == 1 && parts[0] == seq!['e', 'x', 'i', 't'] {
        CommandView::Exit
    } else {
        CommandView::Usage
    }
}

/// The command a line holds.
pub open spec fn spec_parse_command(buf: Seq<char>) -> CommandView {
    command_of(spec_split(spec_pre_process(buf), SEP))
}

/// Calls `str::trim`. Trusted: the result is `s` without its leading and trailing
/// characters of the Unicode property White_Space, as the documentation of `str::trim`
/// says.
#[verifier::external_body]
fn trim(s: &str) -> (r: &str)
    ensures
        r@ == spec_trim(s@),
{
    s.trim()
}

/// Calls `FromIterator<&char> for String` by `collect`. Trusted: the string holds the
/// characters of `v`, in order.
#[verifier::external_body]
fn string_from_chars(v: &Vec<char>) -> (r: String)
    ensures
        r@ == v@,
{
    v.iter().collect()
}

/// The characters of `s`.
fn chars_of(s: &str) -> (r: Vec<char>)
    ensures
        r@ == s@,
{
    let mut v: Vec<char> = Vec::new();
    for c in it: s.chars()
        invariant
            it.seq() == s@,
            v@ == it.seq().take(it.index() as int),
    {
        v.push(c);
    }
    v
}

/// The line with quotes resolved: quoted text is kept as it is, and outside quotes
/// spaces become `SEP` and line breaks are dropped.
pub fn pre_process(buf: &str) -> (r: String)
    ensures
        r@ == spec_pre_process(buf@),
{
    let s = chars_of(trim(buf));
    let mut v: Vec<char> = Vec::new();
    let mut quote = false;
    let mut i: usize = 0;
    while i < s.len()
        invariant
            0 <= i <= s@.len(),
            (v@, quote) == process_chars(s@.take(i as int)),
        decreases s@.len() - i,
    {
        let c = s[i];
        assert(s@.take(i + 1).drop_last() =~= s@.take(i as int));
        if c == '"' {
            quote = !quote;
        } else if c == ' ' && !quote {
            v.push(SEP);
        } else if c == '\n' && !quote {
        } else {
            v.push(c);
        }
        i = i + 1;
    }
    assert(s@.take(s@.len() as int) =~= s@);
    string_from_chars(&v)
}

/// The pieces of `s` between the occurrences of `sep`.
fn split(s: &Vec<char>, sep: char) -> (r: Vec<Vec<char>>)
    ensures
        r@.map_values(|p: Vec<char>| p@) == spec_split(s@, sep),
{
    let mut parts: Vec<Vec<char>> = Vec::new();
    let mut cur: Vec<char> = Vec::new();
    let mut i: usize = 0;
    while i < s.len()
        invariant
            0 <= i <= s@.len(),
            (parts@.map_values(|p: Vec<char>| p@), cur@) == split_acc(s@.take(i as int), sep),
        decreases s@.len() - i,
    {
        let c = s[i];
        assert(s@.take(i + 1).drop_last() =~= s@.take(i as int));
        if c == sep {
            let done = cur;
            cur = Vec::new();
            let ghost before = parts@;
            parts.push(done);
            assert(parts@.map_values(|p: Vec<char>| p@) =~= before.map_values(|p: Vec<char>| p@).push(
                done@,
            ));
        } else {
            cur.push(c);
        }
        i = i + 1;
    }
    assert(s@.take(s@.len() as int) =~= s@);
    let ghost before = parts@;
    parts.push(cur);
    assert(parts@.map_values(|p: Vec<char>| p@) =~= before.map_values(|p: Vec<char>| p@).push(cur@));
    parts
}

/// Whether `v` holds exactly the characters of `w`.
fn is_word(v: &Vec<char>, w: &[char]) -> (r: bool)
    ensures
        r == (v@ == w@),
{
    if v.len() != w.len() {
        return false;
    }
    let mut i: usize = 0;
    while i < v.len()
        invariant
            v@.len() == w@.len(),
            0 <= i <= v@.len(),
            forall|j: int| 0 <= j < i ==> v@[j] == w@[j],
        decreases v@.len() - i,
    {
        if v[i] != w[i] {
            return false;
        }
        i = i + 1;
    }
    assert(v@ =~= w@);
    true
}

/// The command a line of the prompt holds.
pub fn parse_command(buf: &str) -> (r: Command)
    ensures
        r@ == spec_parse_command(buf@),
{
    let line = pre_process(buf);
    let chars = chars_of(line.as_str());
    let parts = split(&chars, SEP);
    let ghost ps = parts@.map_values(|p: Vec<char>| p@);
    assert(ps.len() == parts@.len());
    let n = parts.len();
    if n == 1 && parts[0].len() == 0 {
        return Command::Nothing;
    }
    let insert_word = ['i', 'n', 's', 'e', 'r', 't'];
    let get_word = ['g', 'e', 't'];
    let info_word = ['i', 'n', 'f', 'o'];
    let exit_word = ['e', 'x', 'i', 't'];
    assert(insert_word@ =~= seq!['i', 'n', 's', 'e', 'r', 't']);
    assert(get_word@ =~= seq!['g', 'e', 't']);
    assert(info_word@ =~= seq!['i', 'n', 'f', 'o']);
    assert(exit_word@ =~= seq!['e', 'x', 'i', 't']);
    if n == 3 && is_word(&parts[0], &insert_word) {
        assert(ps[1] == parts@[1]@);
        assert(ps[2] == parts@[2]@);
        Command::Insert(string_from_chars(&parts[1]), string_from_chars(&parts[2]))
    } else if n == 2 && is_word(&parts[0], &get_word) {
        Command::Get(string_from_chars(&parts[1]))
    } else if n == 1 && is_word(&parts[0], &info_word) {
        Command::Info
    } else if n == 1 && is_word(&parts[0], &exit_word) {
        Command::Exit
    } else {
        Command::Usage
    }
}

} // verus!

verus! {

/// How many times `c` occurs in `s`.
pub open spec fn count_of(s: Seq<char>, c: char) -> nat
    decreases s.len(),
{
    if s.len() == 0 {
        0
    } else {
        count_of(s.drop_last(), c) + if s.last() == c {
            1nat
        } else {
            0nat
        }
    }
}

/// The pieces `parts` put back together, with `sep` between each two of them.
pub open spec fn join(parts: Seq<Seq<char>>, sep: char) -> Seq<char>
    decreases parts.len(),
{
    if parts.len() == 0 {
        Seq::empty()
    } else if parts.len() == 1 {
        parts[0]
    } else {
        join(parts.drop_last(), sep).push(sep) + parts.last()
    }
}

proof fn lemma_split_acc(s: Seq<char>, sep: char)
    ensures
        split_acc(s, sep).0.len() == count_of(s, sep),
        join(split_acc(s, sep).0.push(split_acc(s, sep).1), sep) == s,
        forall|i: int|
            0 <= i < split_acc(s, sep).0.push(split_acc(s, sep).1).len() ==> !(
            #[trigger] split_acc(s, sep).0.push(split_acc(s, sep).1)[i]).contains(sep),
    decreases s.len(),
{
    if s.len() > 0 {
        let t = s.drop_last();
        let c = s.last();
        lemma_split_acc(t, sep);
        let (ps0, cur0) = split_acc(t, sep);
        let (ps, cur) = split_acc(s, sep);
        let all0 = ps0.push(cur0);
        let all = ps.push(cur);
        if c == sep {
            assert(ps == all0);
            assert(cur == Seq::<char>::empty());
            assert(all.drop_last() == all0);
            assert(join(all, sep) =~= join(all0, sep).push(sep) + Seq::<char>::empty());
            assert(join(all, sep) =~= s);
            assert forall|i: int| 0 <= i < all.len() implies !(#[trigger] all[i]).contains(sep) by {
                if i < all0.len() {
                    assert(all[i] == all0[i]);
                } else {
                    assert(all[i] == Seq::<char>::empty());
                }
            }
        } else {
            assert(ps == ps0);
            assert(cur == cur0.push(c));
            if ps0.len() == 0 {
                assert(join(all0, sep) == cur0);
                assert(join(all, sep) == cur0.push(c));
            } else {
                assert(all.drop_last() == ps0);
                assert(all0.drop_last() == ps0);
                assert(join(all0, sep) == join(ps0, sep).push(sep) + cur0);
                assert(join(all, sep) == join(ps0, sep).push(sep) + cur0.push(c));
                assert(join(ps0, sep).push(sep) + cur0.push(c) =~= (join(ps0, sep).push(sep)
                    + cur0).push(c));
            }
            assert(t.push(c) =~= s);
            assert forall|i: int| 0 <= i < all.len() implies !(#[trigger] all[i]).contains(sep) by {
                if i < ps0.len() {
                    assert(all[i] == all0[i]);
                } else {
                    assert(all0[i] == cur0);
                    assert(all[i] == cur0.push(c));
                    if cur0.push(c).contains(sep) {
                        let k = choose|k: int| 0 <= k < cur0.push(c).len() && cur0.push(c)[k] == sep;
                        assert(k < cur0.len());
                        assert(cur0[k] == sep);
                    }
                }
            }
        }
    } else {
        assert(split_acc(s, sep).0.push(split_acc(s, sep).1) =~= seq![Seq::<char>::empty()]);
    }
}

/// Splitting at `sep` gives one piece more than there are `sep` in `s`, pieces that
/// hold no `sep`, and pieces that give `s` back when put together with `sep` between
/// them: every piece is kept, empty ones too.
pub proof fn law_split(s: Seq<char>, sep: char)
    ensures
        spec_split(s, sep).len() == count_of(s, sep) + 1,
        join(spec_split(s, sep), sep) == s,
        forall|i: int|
            0 <= i < spec_split(s, sep).len() ==> !(#[trigger] spec_split(s, sep)[i]).contains(sep),
{
    lemma_split_acc(s, sep);
}

/// The command of a line is decided by the words of the line, the pieces of the line
/// cut at `SEP` once quotes are resolved: `insert` takes exactly two more words, `get`
/// exactly one, `info` and `exit` none, an empty line is nothing, and anything else,
/// an `insert` or `get` with another number of words among them, shows the usage.
pub proof fn law_command_words(buf: Seq<char>)
    ensures
        ({
            let words = spec_split(spec_pre_process(buf), SEP);
            let cmd = spec_parse_command(buf);
            let insert = seq!['i', 'n', 's', 'e', 'r', 't'];
            let get = seq!['g', 'e', 't'];
            &&& forall|k: Seq<char>, v: Seq<char>|
                (cmd == CommandView::Insert(k, v)) <==> words == seq![insert, k, v]
            &&& forall|k: Seq<char>| (cmd == CommandView::Get(k)) <==> words == seq![get, k]
            &&& (cmd == CommandView::Info) <==> words == seq![seq!['i', 'n', 'f', 'o']]
            &&& (cmd == CommandView::Exit) <==> words == seq![seq!['e', 'x', 'i', 't']]
            &&& (cmd == CommandView::Nothing) <==> words == seq![Seq::<char>::empty()]
            &&& words.len() > 0 && words[0] == insert && words.len() != 3 ==> cmd
                == CommandView::Usage
            &&& words.len() > 0 && words[0] == get && words.len() != 2 ==> cmd == CommandView::Usage
        }),
{
    let words = spec_split(spec_pre_process(buf), SEP);
    let cmd = spec_parse_command(buf);
    let insert = seq!['i', 'n', 's', 'e', 'r', 't'];
    let get = seq!['g', 'e', 't'];
    assert forall|k: Seq<char>, v: Seq<char>|
        (cmd == CommandView::Insert(k, v)) <==> words == seq![insert, k, v] by {
        if words == seq![insert, k, v] {
            assert(words.len() == 3 && words[0] == insert && words[1] == k && words[2] == v);
        }
        if cmd == CommandView::Insert(k, v) {
            assert(words =~= seq![insert, k, v]);
        }
    }
    assert forall|k: Seq<char>| (cmd == CommandView::Get(k)) <==> words == seq![get, k] by {
        if words == seq![get, k] {
            assert(words.len() == 2 && words[0] == get && words[1] == k);
            assert(words[0] != seq!['i', 'n', 's', 'e', 'r', 't']);
        }
        if cmd == CommandView::Get(k) {
            assert(words =~= seq![get, k]);
        }
    }
    if words == seq![seq!['i', 'n', 'f', 'o']] {
        assert(words[0].len() == 4);
    }
    if cmd == CommandView::Info {
        assert(words =~= seq![seq!['i', 'n', 'f', 'o']]);
    }
    if words == seq![seq!['e', 'x', 'i', 't']] {
        assert(words[0].len() == 4);
        assert(words[0][0] != 'i');
    }
    if cmd == CommandView::Exit {
        assert(words =~= seq![seq!['e', 'x', 'i', 't']]);
    }
    if cmd == CommandView::Nothing {
        assert(words =~= seq![Seq::<char>::empty()]);
    }
    if words.len() > 0 && words[0] == insert {
        assert(words[0] != get && words[0].len() != 4 && words[0].len() != 0);
    }
    if words.len() > 0 && words[0] == get {
        assert(words[0] != insert && words[0].len() != 4 && words[0].len() != 0);
    }
}

} // verus!
