use vstd::prelude::*;

verus! {

/// One instruction; a jump holds the position of its partner once the
/// program is linked.
#[derive(Copy, Clone, PartialEq, Eq, Debug, Structural)]
pub enum Command {
    Inc,
    Dec,
    Plus,
    Minus,
    Input,
    Output,
    JumpFwd(usize),
    JumpBwd(usize),
    Noop,
}

/// The instruction a character stands for; any other character is a
/// comment.
pub open spec fn command_of(c: char) -> Command {
    if c == '>' {
        Command::Inc
    } else if c == '<' {
        Command::Dec
    } else if c == '+' {
        Command::Plus
    } else if c == '-' {
        Command::Minus
    } else if c == '.' {
        Command::Output
    } else if c == ',' {
        Command::Input
    } else if c == '[' {
        Command::JumpFwd(0)
    } else if c == ']' {
        Command::JumpBwd(0)
    } else {
        Command::Noop
    }
}

impl From<char> for Command {
    fn from(c: char) -> (r: Self) {
        match c {
            '>' => Command::Inc,
            '<' => Command::Dec,
            '+' => Command::Plus,
            '-' => Command::Minus,
            '.' => Command::Output,
            ',' => Command::Input,
            '[' => Command::JumpFwd(0),
            ']' => Command::JumpBwd(0),
            _ => Command::Noop,
        }
    }
}

impl vstd::std_specs::convert::FromSpecImpl<char> for Command {
    open spec fn obeys_from_spec() -> bool {
        true
    }

    open spec fn from_spec(c: char) -> Command {
        command_of(c)
    }
}

/// The instructions of a text, comments left out.
pub open spec fn parse_spec(text: Seq<char>) -> Seq<Command>
    decreases text.len(),
{
    if text.len() == 0 {
        Seq::empty()
    } else {
        let rest = parse_spec(text.drop_last());
        if command_of(text.last()) is Noop { rest } else { rest.push(command_of(text.last())) }
    }
}

/// The instructions of `text`, in order, comments left out.
pub fn parse(text: &Vec<char>) -> (r: Vec<Command>)
    ensures
        r@ == parse_spec(text@),
{
    let mut r: Vec<Command> = Vec::new();
    let mut i: usize = 0;
    while i < text.len()
        invariant
            i <= text@.len(),
            r@ == parse_spec(text@.take(i as int)),
        decreases text@.len() - i,
    {
        assert(text@.take(i + 1).drop_last() =~= text@.take(i as int));
        let c = Command::from(text[i]);
        if c != Command::Noop {
            r.push(c);
        }
        i = i + 1;
    }
    assert(text@.take(i as int) =~= text@);
    r
}

/// Linking the first `i` instructions: the instructions so far, each
/// closing jump pointing at the open jump it matches and that one pointing
/// back, and the positions of the open jumps not yet closed; `None` when a
/// closing jump has no partner.
pub open spec fn link_spec(cs: Seq<Command>, i: int) -> Option<(Seq<Command>, Seq<usize>)>
    decreases i,
{
    if i <= 0 {
        Some((cs, Seq::empty()))
    } else {
        match link_spec(cs, i - 1) {
            None => None,
            Some((done, open)) => {
                if cs[i - 1] == Command::JumpFwd(0) {
                    Some((done, open.push((i - 1) as usize)))
                } else if cs[i - 1] == Command::JumpBwd(0) {
                    if open.len() == 0 {
                        None
                    } else {
                        let fwd = open.last();
                        Some((
                            done.update(i - 1, Command::JumpBwd(fwd)).update(fwd as int, Command::JumpFwd((i - 1) as usize)),
                            open.drop_last(),
                        ))
                    }
                } else {
                    Some((done, open))
                }
            },
        }
    }
}

proof fn lemma_link_parts(cs: Seq<Command>, i: int, done: Seq<Command>, open: Seq<usize>)
    requires
        0 <= i <= cs.len(),
        link_spec(cs, i) == Some((done, open)),
    ensures
        done.len() == cs.len(),
        forall|k: int| i <= k < cs.len() ==> done[k] == cs[k],
        forall|k: int| 0 <= k < open.len() ==> 0 <= #[trigger] open[k] < i,
    decreases i,
{
    if i > 0 {
        let (d0, o0) = link_spec(cs, i - 1)->Some_0;
        lemma_link_parts(cs, i - 1, d0, o0);
        if cs[i - 1] == Command::JumpBwd(0) {
            assert(o0[o0.len() - 1] < i - 1);
            assert forall|k: int| i <= k < cs.len() implies done[k] == cs[k] by {
                assert(d0[k] == cs[k]);
            }
            assert forall|k: int| 0 <= k < open.len() implies 0 <= #[trigger] open[k] < i by {
                assert(open[k] == o0[k]);
            }
        } else if cs[i - 1] == Command::JumpFwd(0) {
            assert forall|k: int| 0 <= k < open.len() implies 0 <= #[trigger] open[k] < i by {
                if k < o0.len() {
                    assert(open[k] == o0[k]);
                }
            }
        }
    }
}

proof fn lemma_link_none(cs: Seq<Command>, j: int, k: int)
    requires
        0 <= j <= k,
        link_spec(cs, j) is None,
    ensures
        link_spec(cs, k) is None,
    decreases k - j,
{
    if j < k {
        lemma_link_none(cs, j, k - 1);
    }
}

/// Position of the partner a linked closing jump points at, or -1.
pub open spec fn partner(done: Seq<Command>, i: int) -> int {
    match done[i] {
        Command::JumpBwd(j) => j as int,
        _ => -1,
    }
}

/// The closing jump at `i` points at an earlier open jump that points
/// back at it.
pub open spec fn paired(cs: Seq<Command>, done: Seq<Command>, i: int) -> bool {
    let j = partner(done, i);
    &&& 0 <= j < i
    &&& cs[j] == Command::JumpFwd(0)
    &&& done[j] == Command::JumpFwd(i as usize)
}

proof fn lemma_link_pairs_upto(cs: Seq<Command>, k: int, done: Seq<Command>, open: Seq<usize>)
    requires
        0 <= k <= cs.len(),
        cs.len() <= usize::MAX,
        link_spec(cs, k) == Some((done, open)),
    ensures
        forall|a: int| 0 <= a < open.len() ==> cs[open[a] as int] == Command::JumpFwd(0)
            && done[#[trigger] open[a] as int] == Command::JumpFwd(0),
        forall|a: int, b: int| 0 <= a < b < open.len() ==> open[a] < open[b],
        forall|i: int| 0 <= i < k && cs[i] == Command::JumpBwd(0) ==> #[trigger] paired(cs, done, i)
            && !open.contains(partner(done, i) as usize),
    decreases k,
{
    lemma_link_parts(cs, k, done, open);
    if k > 0 {
        let (d0, o0) = link_spec(cs, k - 1)->Some_0;
        lemma_link_parts(cs, k - 1, d0, o0);
        lemma_link_pairs_upto(cs, k - 1, d0, o0);
        let i = k - 1;
        if cs[i] == Command::JumpFwd(0) {
            assert(open == o0.push(i as usize));
            assert(done == d0);
            assert forall|a: int| 0 <= a < open.len() implies cs[open[a] as int] == Command::JumpFwd(0)
                && done[#[trigger] open[a] as int] == Command::JumpFwd(0) by {
                if a < o0.len() {
                    assert(open[a] == o0[a]);
                    assert(d0[o0[a] as int] == Command::JumpFwd(0));
                } else {
                    assert(d0[i] == cs[i]);
                }
            }
            assert forall|a: int, b: int| 0 <= a < b < open.len() implies open[a] < open[b] by {
                assert(o0[a] < i);
                if b < o0.len() {
                    assert(open[b] == o0[b]);
                }
            }
            assert forall|x: int| 0 <= x < k && cs[x] == Command::JumpBwd(0) implies #[trigger] paired(cs, done, x)
                && !open.contains(partner(done, x) as usize) by {
                assert(paired(cs, d0, x));
                assert(partner(done, x) < x);
                if open.contains(partner(done, x) as usize) {
                    let a = choose|a: int| 0 <= a < open.len() && open[a] == partner(done, x) as usize;
                    if a < o0.len() {
                        assert(o0[a] == open[a]);
                    }
                }
            }
        } else if cs[i] == Command::JumpBwd(0) {
            let j = o0.last();
            let jj = j as int;
            assert(o0[o0.len() - 1] == j);
            assert(jj < i);
            assert(open == o0.drop_last());
            assert(done == d0.update(i, Command::JumpBwd(j)).update(jj, Command::JumpFwd(i as usize)));
            assert(d0[i] == cs[i]);
            assert(cs[jj] == Command::JumpFwd(0));
            assert forall|a: int| 0 <= a < open.len() implies cs[open[a] as int] == Command::JumpFwd(0)
                && done[#[trigger] open[a] as int] == Command::JumpFwd(0) by {
                assert(open[a] == o0[a]);
                assert(o0[a] < o0[o0.len() - 1]);
                assert(d0[o0[a] as int] == Command::JumpFwd(0));
                assert(o0[a] < i);
            }
            assert forall|a: int, b: int| 0 <= a < b < open.len() implies open[a] < open[b] by {
                assert(open[a] == o0[a] && open[b] == o0[b]);
            }
            assert(partner(done, i) == jj);
            assert(paired(cs, done, i));
            assert(!open.contains(j)) by {
                if open.contains(j) {
                    let a = choose|a: int| 0 <= a < open.len() && open[a] == j;
                    assert(o0[a] < o0[o0.len() - 1]);
                }
            }
            assert forall|x: int| 0 <= x < k && cs[x] == Command::JumpBwd(0) implies #[trigger] paired(cs, done, x)
                && !open.contains(partner(done, x) as usize) by {
                if x < i {
                    assert(paired(cs, d0, x));
                    let p = partner(d0, x);
                    assert(!o0.contains(p as usize));
                    assert(o0.contains(j)) by {
                        assert(o0[o0.len() - 1] == j);
                    }
                    assert(p != jj);
                    assert(x != jj) by {
                        assert(cs[jj] == Command::JumpFwd(0));
                    }
                    assert(done[x] == d0[x]);
                    assert(partner(done, x) == p);
                    assert(done[p] == d0[p]);
                    if open.contains(p as usize) {
                        let a = choose|a: int| 0 <= a < open.len() && open[a] == p as usize;
                        assert(o0[a] == open[a]);
                    }
                }
            }
        } else {
            assert(done == d0 && open == o0);
        }
    }
}

/// Linking pairs every closing jump with an earlier open jump, and each of
/// the two points at the other.
pub proof fn lemma_link_pairs(cs: Seq<Command>)
    requires
        cs.len() <= usize::MAX,
    ensures
        link_spec(cs, cs.len() as int) matches Some((done, _)) ==> forall|i: int|
            0 <= i < cs.len() && cs[i] == Command::JumpBwd(0) ==> #[trigger] paired(cs, done, i),
{
    if let Some((done, open)) = link_spec(cs, cs.len() as int) {
        lemma_link_pairs_upto(cs, cs.len() as int, done, open);
    }
}

/// Pairs every closing jump with the open jump it matches; `None` when a
/// closing jump has no partner. An open jump left without partner keeps
/// position 0.
pub fn link(program: Vec<Command>) -> (r: Option<Vec<Command>>)
    ensures
        match link_spec(program@, program@.len() as int) {
            None => r is None,
            Some((done, _)) => r matches Some(v) && v@ == done,
        },
{
    let ghost cs = program@;
    let mut commands = program;
    let mut refs: Vec<usize> = Vec::new();
    let mut i: usize = 0;
    while i < commands.len()
        invariant
            cs == program@,
            commands@.len() == cs.len(),
            i <= cs.len(),
            link_spec(cs, i as int) == Some((commands@, refs@)),
        decreases cs.len() - i,
    {
        proof {
            lemma_link_parts(cs, i as int, commands@, refs@);
        }
        let cmd = commands[i];
        assert(cmd == cs[i as int]);
        if cmd == Command::JumpFwd(0) {
            refs.push(i);
        } else if cmd == Command::JumpBwd(0) {
            let ghost open = refs@;
            match refs.pop() {
                None => {
                    proof {
                        assert(link_spec(cs, i + 1) is None);
                        lemma_link_none(cs, i + 1, cs.len() as int);
                    }
                    return None;
                },
                Some(fwd) => {
                    assert(fwd < i) by {
                        assert(open[open.len() - 1] == fwd);
                    }
                    commands.set(i, Command::JumpBwd(fwd));
                    commands.set(fwd, Command::JumpFwd(i));
                },
            }
        }
        i = i + 1;
    }
    Some(commands)
}

/// Number of memory cells.
pub const MEMORY: usize = 1000;

/// A running program: the memory, the data pointer, the instructions and
/// the position of the next one.
pub struct Interpreter {
    pub data: [u8; 1000],
    pub ptr: usize,
    pub program: Vec<Command>,
    pub cmd: usize,
}

/// What a step asks of the world outside.
#[derive(Copy, Clone, PartialEq, Eq, Debug, Structural)]
pub enum Action {
    /// The program has ended.
    Halt,
    /// Nothing: the step is done.
    Continue,
    /// A byte is wanted for the current cell (see `Interpreter::provide`).
    Read,
    /// This byte is written out.
    Write(u8),
}

impl Interpreter {
    /// A program at its start, all memory zero.
    pub fn new(program: Vec<Command>) -> (r: Interpreter)
        ensures
            r.program@ == program@,
            r.ptr == 0,
            r.cmd == 0,
            forall|i: int| 0 <= i < MEMORY ==> r.data@[i] == 0,
    {
        Interpreter { program, ptr: 0, cmd: 0, data: [0u8; 1000] }
    }

    /// Whether the next step can be taken: the program has ended, or the
    /// data pointer is on a cell and does not move left of the first one,
    /// the instruction is not a comment, and a jump taken does not lead
    /// past the last position there is.
    pub open spec fn can_step(&self) -> bool {
        self.cmd >= self.program@.len() || {
            &&& self.ptr < MEMORY
            &&& self.program@[self.cmd as int] is Dec ==> self.ptr > 0
            &&& !(self.program@[self.cmd as int] is Noop)
            &&& self.program@[self.cmd as int] matches Command::JumpFwd(p)
                ==> (self.data@[self.ptr as int] == 0 ==> p < usize::MAX)
            &&& self.program@[self.cmd as int] matches Command::JumpBwd(p)
                ==> (self.data@[self.ptr as int] != 0 ==> p < usize::MAX)
        }
    }

    /// Whether the next step would fail (see `can_step`).
    pub fn stuck(&self) -> (r: bool)
        ensures
            r == !self.can_step(),
    {
        if self.cmd >= self.program.len() {
            return false;
        }
        if self.ptr >= MEMORY {
            return true;
        }
        let v = self.data[self.ptr];
        match self.program[self.cmd] {
            Command::Dec => self.ptr == 0,
            Command::Noop => true,
            Command::JumpFwd(p) => v == 0 && p == usize::MAX,
            Command::JumpBwd(p) => v != 0 && p == usize::MAX,
            _ => false,
        }
    }

    /// Runs the next instruction; a read leaves it pending until
    /// `provide` gives the byte.
    pub fn step(&mut self) -> (a: Action)
        requires
            old(self).can_step(),
        ensures
            final(self).program == old(self).program,
            old(self).cmd >= old(self).program@.len() ==> a == Action::Halt && *final(self) == *old(self),
            old(self).cmd < old(self).program@.len() ==> ({
                let c = old(self).program@[old(self).cmd as int];
                let v = old(self).data@[old(self).ptr as int];
                let next = (old(self).cmd + 1) as usize;
                match c {
                    Command::Inc => a == Action::Continue && final(self).ptr == old(self).ptr + 1
                        && final(self).data == old(self).data && final(self).cmd == next,
                    Command::Dec => a == Action::Continue && final(self).ptr == old(self).ptr - 1
                        && final(self).data == old(self).data && final(self).cmd == next,
                    Command::Plus => a == Action::Continue && final(self).ptr == old(self).ptr
                        && final(self).data@ == old(self).data@.update(old(self).ptr as int, if v == 255 { 0u8 } else { (v + 1) as u8 })
                        && final(self).cmd == next,
                    Command::Minus => a == Action::Continue && final(self).ptr == old(self).ptr
                        && final(self).data@ == old(self).data@.update(old(self).ptr as int, if v == 0 { 255u8 } else { (v - 1) as u8 })
                        && final(self).cmd == next,
                    Command::Input => a == Action::Read && *final(self) == *old(self),
                    Command::Output => a == Action::Write(v) && final(self).ptr == old(self).ptr
                        && final(self).data == old(self).data && final(self).cmd == next,
                    Command::JumpFwd(p) => a == Action::Continue && final(self).ptr == old(self).ptr
                        && final(self).data == old(self).data
                        && final(self).cmd == (if v == 0 { p + 1 } else { old(self).cmd + 1 }),
                    Command::JumpBwd(p) => a == Action::Continue && final(self).ptr == old(self).ptr
                        && final(self).data == old(self).data
                        && final(self).cmd == (if v != 0 { p + 1 } else { old(self).cmd + 1 }),
                    Command::Noop => false,
                }
            }),
    {
        if self.cmd >= self.program.len() {
            return Action::Halt;
        }
        let c = self.program[self.cmd];
        let v = self.data[self.ptr];
        let mut target = self.cmd;
        match c {
            Command::Inc => {
                self.ptr = self.ptr + 1;
            },
            Command::Dec => {
                self.ptr = self.ptr - 1;
            },
            Command::Plus => {
                self.data[self.ptr] = v.wrapping_add(1);
            },
            Command::Minus => {
                self.data[self.ptr] = v.wrapping_sub(1);
            },
            Command::Input => {
                return Action::Read;
            },
            Command::Output => {},
            Command::JumpFwd(p) => {
                if v == 0 {
                    assert(p < usize::MAX);
                    target = p;
                }
            },
            Command::JumpBwd(p) => {
                if v != 0 {
                    assert(p < usize::MAX);
                    target = p;
                }
            },
            Command::Noop => {},
        }
        self.cmd = target + 1;
        if let Command::Output = c {
            Action::Write(v)
        } else {
            Action::Continue
        }
    }

    /// Stores the byte read for a pending read and moves past it.
    pub fn provide(&mut self, byte: u8)
        requires
            old(self).cmd < old(self).program@.len(),
            old(self).program@[old(self).cmd as int] is Input,
            old(self).ptr < MEMORY,
        ensures
            final(self).program == old(self).program,
            final(self).ptr == old(self).ptr,
            final(self).cmd == old(self).cmd + 1,
            final(self).data@ == old(self).data@.update(old(self).ptr as int, byte),
    {
        let len = self.program.len();
        assert(self.cmd < len);
        self.data[self.ptr] = byte;
        self.cmd = self.cmd + 1;
    }
}

} // verus!
