//! Cells as processes: spawning one, the arguments that it was given, and its
//! environment.

use vstd::prelude::*;
use vstd::string::*;
use vstd::utf8::{decode_utf8, valid_utf8};
use crate::bytes;
use crate::user::ipc::{AsyncReceiver, AsyncSender, Channel};

verus! {

/// The most variables that are looked for on the stack.
pub const MAX_ENV: usize = 256;

/// A cell that was spawned.
#[derive(Copy, Clone, PartialEq, Eq, Debug, Structural)]
pub struct Child {
    pub handle: u64,
}

impl Child {
    pub fn handle(&self) -> (h: u64)
        ensures
            h == self.handle,
    {
        self.handle
    }
}

/// A cell could not be spawned.
#[derive(Copy, Clone, PartialEq, Eq, Debug, Structural)]
pub struct SpawnError;

/// What the kernel is handed to spawn a cell: the path, and texts that end in a zero.
pub struct SpawnRequest {
    pub path: Vec<u8>,
    pub argv: Vec<Vec<u8>>,
    pub env: Vec<Vec<u8>>,
    /// The end of a channel that the new cell inherits.
    pub chan: Option<usize>,
}

/// The texts, each with a zero after it.
pub open spec fn terminated(list: Seq<&str>, out: Seq<Vec<u8>>) -> bool {
    &&& out.len() == list.len()
    &&& forall|i: int| 0 <= i < list.len() ==> (#[trigger] out[i])@ == list[i].spec_bytes().push(0)
}

fn cstrings(list: &Vec<&str>) -> (out: Vec<Vec<u8>>)
    ensures
        terminated(list@, out@),
{
    let mut out: Vec<Vec<u8>> = Vec::new();
    let mut i: usize = 0;
    while i < list.len()
        invariant
            i <= list@.len(),
            out@.len() == i,
            forall|j: int|
                0 <= j < i ==> (#[trigger] out@[j])@ == list@[j].spec_bytes().push(0),
        decreases list@.len() - i,
    {
        let mut s: Vec<u8> = bytes::copied(list[i].as_bytes());
        s.push(0);
        out.push(s);
        i = i + 1;
    }
    out
}

/// The request to spawn a cell.
pub fn spawn(path: &str, argv: &Vec<&str>, env: &Vec<&str>) -> (r: SpawnRequest)
    ensures
        r.path@ == path.spec_bytes(),
        terminated(argv@, r.argv@),
        terminated(env@, r.env@),
        r.chan is None,
{
    SpawnRequest {
        path: bytes::copied(path.as_bytes()),
        argv: cstrings(argv),
        env: cstrings(env),
        chan: None,
    }
}

/// The request to spawn a cell that inherits an end of a channel.
pub fn spawn_on_channel(path: &str, argv: &Vec<&str>, env: &Vec<&str>, slot: usize) -> (r: SpawnRequest)
    ensures
        r.path@ == path.spec_bytes(),
        terminated(argv@, r.argv@),
        terminated(env@, r.env@),
        r.chan == Some(slot),
{
    let r: SpawnRequest = spawn(path, argv, env);
    SpawnRequest { path: r.path, argv: r.argv, env: r.env, chan: Some(slot) }
}

/// The addresses of some texts, and the zero that ends the list.
pub fn pointer_array(addrs: &Vec<u64>) -> (p: Vec<u64>)
    ensures
        p@ == addrs@.push(0),
{
    let mut p: Vec<u64> = Vec::new();
    let mut i: usize = 0;
    while i < addrs.len()
        invariant
            i <= addrs@.len(),
            p@ =~= addrs@.take(i as int),
        decreases addrs@.len() - i,
    {
        p.push(addrs[i]);
        i = i + 1;
    }
    p.push(0);
    assert(p@ =~= addrs@.push(0));
    p
}

/// The cell that the kernel has spawned, if it has.
pub fn spawned(handle: u64) -> (r: Result<Child, SpawnError>)
    ensures
        r == (if handle == u64::MAX {
            Err::<Child, SpawnError>(SpawnError)
        } else {
            Ok(Child { handle })
        }),
{
    if handle == u64::MAX {
        Err(SpawnError)
    } else {
        Ok(Child { handle })
    }
}

/// A spawned cell whose output flows to this one over a channel.
pub struct Pipe {
    pub child: Child,
    /// To the child: what was taken.
    pub tx: AsyncSender,
    /// From the child: its output.
    pub rx: AsyncReceiver,
}

/// A cell that is to be spawned at the other end of this cell's channel: the halves of
/// the channel and the request. Without a channel there is nothing to pipe through.
pub fn spawn_piped(ch: Option<Channel>, path: &str, argv: &Vec<&str>, env: &Vec<&str>) -> (r: Result<
    (SpawnRequest, AsyncSender, AsyncReceiver),
    SpawnError,
>)
    ensures
        r is Ok <==> ch is Some,
        r matches Ok(x) ==> {
            &&& x.0.path@ == path.spec_bytes()
            &&& terminated(argv@, x.0.argv@)
            &&& terminated(env@, x.0.env@)
            &&& x.0.chan is None
            &&& x.1 == (AsyncSender {
                slot: ch->0.slot,
                role: ch->0.role,
                cap_id: ch->0.cap_id,
            })
            &&& x.2 == (AsyncReceiver { slot: ch->0.slot, role: ch->0.role })
        },
{
    match ch {
        None => Err(SpawnError),
        Some(c) => {
            let (tx, rx) = c.split();
            Ok((spawn(path, argv, env), tx, rx))
        },
    }
}

/// The pipe to a cell that was spawned, if it was.
pub fn piped(handle: u64, tx: AsyncSender, rx: AsyncReceiver) -> (r: Result<Pipe, SpawnError>)
    ensures
        r == (if handle == u64::MAX {
            Err::<Pipe, SpawnError>(SpawnError)
        } else {
            Ok(Pipe { child: Child { handle }, tx, rx })
        }),
{
    match spawned(handle) {
        Err(e) => Err(e),
        Ok(child) => Ok(Pipe { child, tx, rx }),
    }
}

/// A piece of a cell's memory.
pub struct Image {
    pub va: u64,
    pub bytes: Vec<u8>,
}

impl Image {
    /// Whether the word at an address lies in the piece.
    pub open spec fn has_word(&self, va: int) -> bool {
        self.va <= va && va + 8 <= self.va + self.bytes@.len()
    }

    /// The word at an address.
    pub open spec fn word(&self, va: int) -> int {
        bytes::le(self.bytes@, va - self.va, 8)
    }

    /// Whether an address lies in the piece.
    pub open spec fn has(&self, va: int) -> bool {
        self.va <= va < self.va + self.bytes@.len()
    }

    /// The text at an address.
    pub open spec fn text_at(&self, va: int) -> Seq<u8> {
        bytes::until_zero(self.bytes@, va - self.va)
    }

    fn holds_word(&self, va: u64) -> (b: bool)
        ensures
            b == self.has_word(va as int),
    {
        va >= self.va && self.bytes.len() >= 8 && va - self.va <= (self.bytes.len() - 8) as u64
    }

    fn holds(&self, va: u64) -> (b: bool)
        ensures
            b == self.has(va as int),
    {
        va >= self.va && va - self.va < self.bytes.len() as u64
    }

    fn read_word(&self, va: u64) -> (w: u64)
        requires
            self.has_word(va as int),
        ensures
            w == self.word(va as int),
    {
        assert(va - self.va <= self.bytes.len());
        bytes::read_u64(self.bytes.as_slice(), (va - self.va) as usize)
    }

    fn read_text(&self, va: u64) -> (v: Vec<u8>)
        requires
            self.has(va as int),
        ensures
            v@ == self.text_at(va as int),
    {
        assert(va - self.va < self.bytes.len());
        bytes::read_until_zero(self.bytes.as_slice(), (va - self.va) as usize)
    }
}

/// How many arguments the block at an address says that there are.
pub open spec fn arg_count(img: &Image, base: u64) -> int {
    img.word(base as int)
}

/// Where the addresses of the arguments stand.
pub open spec fn argv_at(base: u64) -> int {
    base + 8
}

/// Where the addresses of the variables stand: after those of the arguments and the
/// zero that ends them.
pub open spec fn envp_at(img: &Image, base: u64) -> int {
    base + 8 * (arg_count(img, base) + 2)
}

/// How many addresses stand at `at` before the first zero, at most `limit` of them.
pub open spec fn pointers_at(img: &Image, at: int, limit: nat) -> nat
    decreases limit,
{
    if limit == 0 || img.word(at) == 0 {
        0
    } else {
        1 + pointers_at(img, at + 8, (limit - 1) as nat)
    }
}

/// Whether the address at place `i` from `at` on stands in the image, and is of a place in
/// it.
pub open spec fn points_in(img: &Image, at: int, i: int) -> bool {
    img.has_word(at + 8 * i) && img.has(img.word(at + 8 * i))
}

/// Whether `n` addresses stand at `at`, each of a place in the image.
pub open spec fn readable(img: &Image, at: int, n: int) -> bool {
    &&& at + 8 * n <= u64::MAX
    &&& forall|i: int| 0 <= i < n ==> #[trigger] points_in(img, at, i)
}

/// Read the texts whose addresses stand at `at`.
fn parse_cstr_array(img: &Image, at: u64, n: usize) -> (out: Vec<Vec<u8>>)
    requires
        readable(img, at as int, n as int),
    ensures
        out@.len() == n,
        forall|i: int|
            0 <= i < n ==> (#[trigger] out@[i])@ == img.text_at(img.word(at + 8 * i)),
{
    let mut out: Vec<Vec<u8>> = Vec::new();
    let mut i: usize = 0;
    while i < n
        invariant
            i <= n,
            readable(img, at as int, n as int),
            out@.len() == i,
            forall|j: int|
                0 <= j < i ==> (#[trigger] out@[j])@ == img.text_at(img.word(at + 8 * j)),
        decreases n - i,
    {
        assert(points_in(img, at as int, i as int));
        let p: u64 = img.read_word(at + 8 * (i as u64));
        out.push(img.read_text(p));
        i = i + 1;
    }
    out
}

/// The bytes of the arguments that the cell was given, from the block at the start of its stack; none
/// where there is no block.
pub fn arg_bytes(img: &Image, base: u64) -> (out: Vec<Vec<u8>>)
    requires
        base != 0 ==> args_readable(img, base),
    ensures
        base == 0 ==> out@.len() == 0,
        base != 0 ==> {
            &&& out@.len() == arg_count(img, base)
            &&& forall|i: int|
                0 <= i < out@.len() ==> (#[trigger] out@[i])@ == img.text_at(
                    img.word(argv_at(base) + 8 * i),
                )
        },
{
    if base == 0 {
        return Vec::new();
    }
    let argc: u64 = img.read_word(base);
    parse_cstr_array(img, base + 8, argc as usize)
}

/// The bytes of the variables that the cell was given, from the block at the start of its stack; none
/// where there is no block.
pub fn env_bytes(img: &Image, base: u64) -> (out: Vec<Vec<u8>>)
    requires
        base != 0 ==> env_readable(img, base),
    ensures
        base == 0 ==> out@.len() == 0,
        base != 0 ==> {
            let at = envp_at(img, base);
            &&& out@.len() == pointers_at(img, at, MAX_ENV as nat)
            &&& forall|i: int|
                0 <= i < out@.len() ==> (#[trigger] out@[i])@ == img.text_at(
                    img.word(at + 8 * i),
                )
        },
{
    if base == 0 {
        return Vec::new();
    }
    let argc: u64 = img.read_word(base);
    let at: u64 = base + 8 * (argc + 2);
    let mut n: usize = 0;
    let ghost total = pointers_at(img, at as int, MAX_ENV as nat);
    assert(total > 0 ==> points_in(img, at as int, 0));
    while n < MAX_ENV && img.read_word(at + 8 * (n as u64)) != 0
        invariant
            n <= MAX_ENV,
            at == envp_at(img, base),
            at + 8 * MAX_ENV <= u64::MAX,
            total == pointers_at(img, at as int, MAX_ENV as nat),
            readable(img, at as int, total as int),
            total < MAX_ENV ==> img.has_word(at + 8 * total),
            total == n + pointers_at(img, at + 8 * n, (MAX_ENV - n) as nat),
            n < MAX_ENV ==> img.has_word(at + 8 * n),
        decreases MAX_ENV - n,
    {
        n = n + 1;
        proof {
            assert(at + 8 * (n - 1) + 8 == at + 8 * n);
            if n < MAX_ENV {
                if n < total {
                    assert(points_in(img, at as int, n as int));
                }
            }
        }
    }
    parse_cstr_array(img, at, n)
}

/// The text that some bytes are read as, where those that are no UTF-8 are replaced.
pub uninterp spec fn lossy_text(bytes: Seq<u8>) -> Seq<char>;

/// `String::from_utf8_lossy`, as an owned string: the text is a function of the bytes,
/// and where they are UTF-8 it is the text that they encode. What stands in place of
/// bytes that are not is left unsaid.
#[verifier::external_body]
fn decode_lossy(bytes: &[u8]) -> (s: String)
    ensures
        s@ == lossy_text(bytes@),
        valid_utf8(bytes@) ==> s@ == decode_utf8(bytes@),
{
    String::from_utf8_lossy(bytes).into_owned()
}

/// Some texts, decoded.
pub fn decoded(list: &Vec<Vec<u8>>) -> (out: Vec<String>)
    ensures
        out@.len() == list@.len(),
        forall|i: int|
            0 <= i < list@.len() ==> (#[trigger] out@[i])@ == lossy_text(list@[i]@) && (valid_utf8(
                list@[i]@,
            ) ==> out@[i]@ == decode_utf8(list@[i]@)),
{
    let mut out: Vec<String> = Vec::new();
    let mut i: usize = 0;
    while i < list.len()
        invariant
            i <= list@.len(),
            out@.len() == i,
            forall|j: int|
                0 <= j < i ==> (#[trigger] out@[j])@ == lossy_text(list@[j]@) && (valid_utf8(
                    list@[j]@,
                ) ==> out@[j]@ == decode_utf8(list@[j]@)),
        decreases list@.len() - i,
    {
        out.push(decode_lossy(list[i].as_slice()));
        i = i + 1;
    }
    out
}

/// Whether the arguments can be read from the block at an address.
pub open spec fn args_readable(img: &Image, base: u64) -> bool {
    &&& img.has_word(base as int)
    &&& arg_count(img, base) <= usize::MAX
    &&& readable(img, argv_at(base), arg_count(img, base))
}

/// Whether the variables can be read from the block at an address.
pub open spec fn env_readable(img: &Image, base: u64) -> bool {
    let at = envp_at(img, base);
    let n = pointers_at(img, at, MAX_ENV as nat) as int;
    &&& img.has_word(base as int)
    &&& at + 8 * MAX_ENV <= u64::MAX
    &&& readable(img, at, n)
    &&& n < MAX_ENV ==> img.has_word(at + 8 * n)
}

/// Whether the addresses that stand at `at` are of places in the image, each of them.
fn pointers_hold(img: &Image, at: u64, n: u64) -> (b: bool)
    ensures
        b == readable(img, at as int, n as int),
{
    if at as u128 + 8 * (n as u128) > u64::MAX as u128 {
        return false;
    }
    let mut i: u64 = 0;
    while i < n
        invariant
            i <= n,
            at + 8 * n <= u64::MAX,
            readable(img, at as int, i as int),
        decreases n - i,
    {
        let p: u64 = at + 8 * i;
        if !img.holds_word(p) || !img.holds(img.read_word(p)) {
            assert(!points_in(img, at as int, i as int));
            return false;
        }
        assert(points_in(img, at as int, i as int));
        i = i + 1;
    }
    true
}

/// Whether the arguments can be read from the block at an address.
pub fn has_args(img: &Image, base: u64) -> (b: bool)
    ensures
        b == args_readable(img, base),
{
    if !img.holds_word(base) {
        return false;
    }
    let argc: u64 = img.read_word(base);
    if argc as u128 > usize::MAX as u128 || base > u64::MAX - 8 {
        return false;
    }
    pointers_hold(img, base + 8, argc)
}

/// Whether the variables can be read from the block at an address.
pub fn has_env(img: &Image, base: u64) -> (b: bool)
    ensures
        b == env_readable(img, base),
{
    if !img.holds_word(base) {
        return false;
    }
    let argc: u64 = img.read_word(base);
    let at: u128 = base as u128 + 8 * (argc as u128 + 2);
    if at + 8 * (MAX_ENV as u128) > u64::MAX as u128 {
        return false;
    }
    let at: u64 = at as u64;
    let mut n: u64 = 0;
    let ghost total = pointers_at(img, at as int, MAX_ENV as nat);
    while n < MAX_ENV as u64
        invariant
            n <= MAX_ENV,
            at == envp_at(img, base),
            at + 8 * MAX_ENV <= u64::MAX,
            img.has_word(base as int),
            total == pointers_at(img, at as int, MAX_ENV as nat),
            total == n + pointers_at(img, at + 8 * n, (MAX_ENV - n) as nat),
            readable(img, at as int, n as int),
        decreases MAX_ENV - n,
    {
        let p: u64 = at + 8 * n;
        if !img.holds_word(p) {
            assert(!points_in(img, at as int, n as int));
            return false;
        }
        let word: u64 = img.read_word(p);
        if word == 0 {
            return true;
        }
        assert(at + 8 * n + 8 == at + 8 * (n + 1));
        assert(pointers_at(img, at + 8 * n, (MAX_ENV - n) as nat) == 1 + pointers_at(
            img,
            at + 8 * (n + 1),
            (MAX_ENV - (n + 1)) as nat,
        ));
        if !img.holds(word) {
            assert(!points_in(img, at as int, n as int));
            return false;
        }
        assert(points_in(img, at as int, n as int));
        n = n + 1;
    }
    true
}

/// The arguments that the cell was given, as texts.
pub fn args(img: &Image, base: u64) -> (out: Vec<String>)
    requires
        base != 0 ==> args_readable(img, base),
    ensures
        base == 0 ==> out@.len() == 0,
        base != 0 ==> {
            &&& out@.len() == arg_count(img, base)
            &&& forall|i: int|
                0 <= i < out@.len() ==> (#[trigger] out@[i])@ == lossy_text(
                    img.text_at(img.word(argv_at(base) + 8 * i)),
                )
        },
{
    let list: Vec<Vec<u8>> = arg_bytes(img, base);
    decoded(&list)
}

/// The variables that the cell was given, as texts.
pub fn env_args(img: &Image, base: u64) -> (out: Vec<String>)
    requires
        base != 0 ==> env_readable(img, base),
    ensures
        base == 0 ==> out@.len() == 0,
        base != 0 ==> {
            let at = envp_at(img, base);
            &&& out@.len() == pointers_at(img, at, MAX_ENV as nat)
            &&& forall|i: int|
                0 <= i < out@.len() ==> (#[trigger] out@[i])@ == lossy_text(
                    img.text_at(img.word(at + 8 * i)),
                )
        },
{
    let list: Vec<Vec<u8>> = env_bytes(img, base);
    decoded(&list)
}

/// What a cell is told apart by: where its arguments stand.
pub fn identity(args_ptr: u64) -> (id: u64)
    ensures
        id == args_ptr,
{
    args_ptr
}

/// What some strings say.
pub open spec fn texts(list: Seq<String>) -> Seq<Seq<char>> {
    Seq::new(list.len(), |i: int| list[i]@)
}

/// The texts of the variables in the block at an address.
pub open spec fn env_texts(img: &Image, base: u64) -> Seq<Seq<char>> {
    if base == 0 {
        Seq::empty()
    } else {
        let at = envp_at(img, base);
        Seq::new(
            pointers_at(img, at, MAX_ENV as nat),
            |i: int| lossy_text(img.text_at(img.word(at + 8 * i))),
        )
    }
}

/// The texts of the arguments in the block at an address.
pub open spec fn arg_texts(img: &Image, base: u64) -> Seq<Seq<char>> {
    if base == 0 {
        Seq::empty()
    } else {
        Seq::new(
            arg_count(img, base) as nat,
            |i: int| lossy_text(img.text_at(img.word(argv_at(base) + 8 * i))),
        )
    }
}

/// A variable of the environment.
pub struct EnvVar {
    pub key: String,
    pub val: String,
}

impl View for EnvVar {
    type V = (Seq<char>, Seq<char>);

    open spec fn view(&self) -> (Seq<char>, Seq<char>) {
        (self.key@, self.val@)
    }
}

/// A cell's own view of its environment.
pub struct Env {
    pub vars: Vec<EnvVar>,
}

impl View for Env {
    type V = Seq<(Seq<char>, Seq<char>)>;

    open spec fn view(&self) -> Seq<(Seq<char>, Seq<char>)> {
        self.vars@.map_values(|v: EnvVar| v@)
    }
}

/// The place of the first variable with a name, from `i` on; the length where there is
/// none.
pub open spec fn place_of(vars: Seq<(Seq<char>, Seq<char>)>, key: Seq<char>, i: int) -> int
    decreases vars.len() - i,
{
    if i < 0 || i >= vars.len() {
        vars.len() as int
    } else if vars[i].0 == key {
        i
    } else {
        place_of(vars, key, i + 1)
    }
}

/// The value of a variable.
pub open spec fn lookup(vars: Seq<(Seq<char>, Seq<char>)>, key: Seq<char>) -> Option<Seq<char>> {
    let i = place_of(vars, key, 0);
    if i < vars.len() {
        Some(vars[i].1)
    } else {
        None
    }
}

/// The environment with a variable set.
pub open spec fn with_var(
    vars: Seq<(Seq<char>, Seq<char>)>,
    key: Seq<char>,
    val: Seq<char>,
) -> Seq<(Seq<char>, Seq<char>)> {
    let i = place_of(vars, key, 0);
    if i < vars.len() {
        vars.update(i, (vars[i].0, val))
    } else {
        vars.push((key, val))
    }
}

/// Where the first equals sign stands, from `i` on.
pub open spec fn equals_at(s: Seq<char>, i: int) -> int
    decreases s.len() - i,
{
    if i < 0 || i >= s.len() {
        s.len() as int
    } else if s[i] == '=' {
        i
    } else {
        equals_at(s, i + 1)
    }
}

/// The variables that the first `n` texts set: those that hold an equals sign.
pub open spec fn parsed(list: Seq<Seq<char>>, n: int) -> Seq<(Seq<char>, Seq<char>)>
    decreases n,
{
    if n <= 0 {
        Seq::empty()
    } else {
        let s = list[n - 1];
        let e = equals_at(s, 0);
        if e < s.len() {
            parsed(list, n - 1).push((s.take(e), s.skip(e + 1)))
        } else {
            parsed(list, n - 1)
        }
    }
}

fn find_equals(s: &str, len: usize) -> (e: usize)
    requires
        len == s@.len(),
    ensures
        e == equals_at(s@, 0),
        e <= s@.len(),
{
    let mut i: usize = 0;
    while i < len && s.get_char(i) != '='
        invariant
            i <= len == s@.len(),
            equals_at(s@, 0) == equals_at(s@, i as int),
        decreases len - i,
    {
        i = i + 1;
    }
    i
}

/// Whether two texts are the same.
fn same_text(a: &str, b: &str) -> (r: bool)
    ensures
        r == (a@ == b@),
{
    let len: usize = a.unicode_len();
    if len != b.unicode_len() {
        return false;
    }
    let mut i: usize = 0;
    while i < len
        invariant
            i <= len,
            len == a@.len() == b@.len(),
            forall|k: int| 0 <= k < i ==> #[trigger] a@[k] == b@[k],
        decreases len - i,
    {
        if a.get_char(i) != b.get_char(i) {
            assert(a@[i as int] != b@[i as int]);
            return false;
        }
        i = i + 1;
    }
    assert(a@ =~= b@);
    true
}

impl Env {
    /// The environment that some texts set.
    pub fn new(list: &Vec<String>) -> (e: Env)
        ensures
            e@ == parsed(texts(list@), list@.len() as int),
    {
        let mut env: Env = Env { vars: Vec::new() };
        let mut i: usize = 0;
        while i < list.len()
            invariant
                i <= list@.len(),
                env@ =~= parsed(texts(list@), i as int),
            decreases list@.len() - i,
        {
            let s: &str = list[i].as_str();
            let len: usize = s.unicode_len();
            let eq: usize = find_equals(s, len);
            let ghost before = env@;
            assert(texts(list@)[i as int] == s@);
            if eq < len {
                let key: String = String::from_str(s.substring_char(0, eq));
                let val: String = String::from_str(s.substring_char(eq + 1, len));
                env.vars.push(EnvVar { key, val });
                proof {
                    assert(s@.subrange(0, eq as int) =~= s@.take(eq as int));
                    assert(s@.subrange(eq + 1, len as int) =~= s@.skip(eq + 1));
                    assert(env@ =~= before.push((s@.take(eq as int), s@.skip(eq + 1))));
                }
            }
            i = i + 1;
        }
        env
    }

    /// The environment that a cell starts with, from the block at the start of its stack.
    pub fn inherited(img: &Image, base: u64) -> (e: Env)
        requires
            base != 0 ==> env_readable(img, base),
        ensures
            e@ == parsed(env_texts(img, base), env_texts(img, base).len() as int),
    {
        let list: Vec<String> = env_args(img, base);
        assert(texts(list@) =~= env_texts(img, base));
        Env::new(&list)
    }

    fn place(&self, key: &str) -> (i: usize)
        ensures
            i == place_of(self@, key@, 0),
            i <= self.vars@.len(),
    {
        let mut i: usize = 0;
        while i < self.vars.len()
            invariant
                i <= self.vars@.len(),
                self@.len() == self.vars@.len(),
                place_of(self@, key@, 0) == place_of(self@, key@, i as int),
            decreases self.vars@.len() - i,
        {
            assert(self@[i as int] == self.vars@[i as int]@);
            if same_text(self.vars[i].key.as_str(), key) {
                return i;
            }
            i = i + 1;
        }
        i
    }
}

/// The value of a variable, if it is set.
pub fn env_get(e: &Env, key: &str) -> (v: Option<String>)
    ensures
        match lookup(e@, key@) {
            None => v is None,
            Some(s) => v is Some && v->0@ == s,
        },
{
    let i: usize = e.place(key);
    if i < e.vars.len() {
        assert(e@[i as int] == e.vars@[i as int]@);
        Some(String::from_str(e.vars[i].val.as_str()))
    } else {
        None
    }
}

/// Set a variable.
pub fn env_set(e: &mut Env, key: &str, value: &str)
    ensures
        final(e)@ == with_var(old(e)@, key@, value@),
{
    let i: usize = e.place(key);
    if i < e.vars.len() {
        assert(e@[i as int] == e.vars@[i as int]@);
        e.vars[i].val = String::from_str(value);
        assert(e@ =~= with_var(old(e)@, key@, value@));
    } else {
        e.vars.push(EnvVar { key: String::from_str(key), val: String::from_str(value) });
        assert(e@ =~= with_var(old(e)@, key@, value@));
    }
}

/// All variables.
pub fn env_vars(e: &Env) -> (v: Vec<EnvVar>)
    ensures
        v@.map_values(|x: EnvVar| x@) == e@,
{
    let mut v: Vec<EnvVar> = Vec::new();
    let mut i: usize = 0;
    while i < e.vars.len()
        invariant
            i <= e.vars@.len(),
            v@.len() == i,
            forall|j: int| 0 <= j < i ==> (#[trigger] v@[j])@ == e.vars@[j]@,
        decreases e.vars@.len() - i,
    {
        v.push(
            EnvVar {
                key: String::from_str(e.vars[i].key.as_str()),
                val: String::from_str(e.vars[i].val.as_str()),
            },
        );
        i = i + 1;
    }
    assert(v@.map_values(|x: EnvVar| x@) =~= e@);
    v
}

proof fn lemma_place(vars: Seq<(Seq<char>, Seq<char>)>, key: Seq<char>, i: int)
    requires
        0 <= i <= vars.len(),
    ensures
        i <= place_of(vars, key, i) <= vars.len(),
        place_of(vars, key, i) < vars.len() ==> vars[place_of(vars, key, i)].0 == key,
        forall|j: int| i <= j < place_of(vars, key, i) ==> (#[trigger] vars[j]).0 != key,
    decreases vars.len() - i,
{
    if i < vars.len() && vars[i].0 != key {
        lemma_place(vars, key, i + 1);
    }
}

proof fn lemma_place_is(vars: Seq<(Seq<char>, Seq<char>)>, key: Seq<char>, i: int, p: int)
    requires
        0 <= i <= p < vars.len(),
        vars[p].0 == key,
        forall|j: int| i <= j < p ==> (#[trigger] vars[j]).0 != key,
    ensures
        place_of(vars, key, i) == p,
    decreases p - i,
{
    if i < p {
        assert(vars[i].0 != key);
        lemma_place_is(vars, key, i + 1, p);
    }
}

proof fn lemma_no_place(vars: Seq<(Seq<char>, Seq<char>)>, key: Seq<char>, i: int)
    requires
        0 <= i <= vars.len(),
        forall|j: int| i <= j < vars.len() ==> (#[trigger] vars[j]).0 != key,
    ensures
        place_of(vars, key, i) == vars.len(),
    decreases vars.len() - i,
{
    if i < vars.len() {
        lemma_no_place(vars, key, i + 1);
    }
}

/// A variable has the value it was last set to, and setting one leaves every other as
/// it was.
pub proof fn law_set_then_get(
    vars: Seq<(Seq<char>, Seq<char>)>,
    key: Seq<char>,
    val: Seq<char>,
    other: Seq<char>,
)
    ensures
        lookup(with_var(vars, key, val), key) == Some(val),
        other != key ==> lookup(with_var(vars, key, val), other) == lookup(vars, other),
{
    let i = place_of(vars, key, 0);
    let after = with_var(vars, key, val);
    lemma_place(vars, key, 0);
    assert forall|j: int| 0 <= j < i implies (#[trigger] after[j]).0 != key by {
        assert(vars[j].0 != key);
    }
    lemma_place_is(after, key, 0, i);
    if other != key {
        let k = place_of(vars, other, 0);
        lemma_place(vars, other, 0);
        if k < vars.len() {
            assert forall|j: int| 0 <= j < k implies (#[trigger] after[j]).0 != other by {
                assert(vars[j].0 != other);
            }
            lemma_place_is(after, other, 0, k);
        } else {
            assert forall|j: int| 0 <= j < after.len() implies (#[trigger] after[j]).0 != other by {
                if j < vars.len() {
                    assert(vars[j].0 != other);
                }
            }
            lemma_no_place(after, other, 0);
        }
    }
}

proof fn lemma_equals_at(s: Seq<char>, i: int, n: int)
    requires
        0 <= i <= n <= s.len(),
        forall|j: int| i <= j < n ==> #[trigger] s[j] != '=',
        n == s.len() || s[n] == '=',
    ensures
        equals_at(s, i) == n,
    decreases n - i,
{
    if i < n {
        assert(s[i] != '=');
        lemma_equals_at(s, i + 1, n);
    }
}

/// A text of an environment is a name, an equals sign and a value: the name is what
/// stands before the first equals sign, the value everything behind it, further equals
/// signs among it. A text without one is no variable.
pub proof fn law_variables_come_apart(list: Seq<Seq<char>>, n: int, key: Seq<char>, val: Seq<char>)
    requires
        0 < n <= list.len(),
        forall|j: int| 0 <= j < key.len() ==> #[trigger] key[j] != '=',
    ensures
        list[n - 1] == key + seq!['='] + val ==> parsed(list, n) == parsed(list, n - 1).push((key, val)),
        list[n - 1] == key ==> parsed(list, n) == parsed(list, n - 1),
{
    let s = list[n - 1];
    if s == key + seq!['='] + val {
        assert forall|j: int| 0 <= j < key.len() implies #[trigger] s[j] != '=' by {
            assert(s[j] == key[j]);
        }
        assert(s[key.len() as int] == '=');
        lemma_equals_at(s, 0, key.len() as int);
        assert(s.take(key.len() as int) =~= key);
        assert(s.skip(key.len() as int + 1) =~= val);
    } else if s == key {
        lemma_equals_at(s, 0, key.len() as int);
    }
}

/// Where the arguments and the environment of a process stand: the count first, then a
/// word for each argument, a zero, and a word for each variable up to a zero. Argument
/// `i` is the text that word `1 + i` points to, and variable `i` that which word `count + 2
/// + i` points to.
pub proof fn law_arguments_stand_in_order(img: &Image, base: u64, i: int)
    requires
        base != 0,
        0 <= i,
    ensures
        arg_texts(img, base).len() == img.word(base as int) as nat,
        i < arg_texts(img, base).len() ==> arg_texts(img, base)[i] == lossy_text(
            img.text_at(img.word(base + 8 + 8 * i)),
        ),
        i < env_texts(img, base).len() ==> env_texts(img, base)[i] == lossy_text(
            img.text_at(img.word(base + 8 * (img.word(base as int) + 2) + 8 * i)),
        ),
        arg_texts(img, 0).len() == 0,
        env_texts(img, 0).len() == 0,
{
}

/// Pointers are counted to the first zero, or to the limit.
pub proof fn law_pointers_end_with_a_zero(img: &Image, at: int, limit: nat, i: int)
    requires
        0 <= i,
    ensures
        pointers_at(img, at, limit) <= limit,
        i < pointers_at(img, at, limit) ==> img.word(at + 8 * i) != 0,
        pointers_at(img, at, limit) < limit ==> img.word(at + 8 * pointers_at(img, at, limit)) == 0,
    decreases limit,
{
    if limit > 0 && img.word(at) != 0 {
        if i > 0 {
            law_pointers_end_with_a_zero(img, at + 8, (limit - 1) as nat, i - 1);
        } else {
            law_pointers_end_with_a_zero(img, at + 8, (limit - 1) as nat, 0);
        }
    }
}

/// A list of texts is handed on as it is, each text with a zero behind it.
pub proof fn law_texts_end_with_a_zero(list: Seq<&str>, out: Seq<Vec<u8>>, i: int, j: int)
    requires
        terminated(list, out),
        0 <= i < list.len(),
        0 <= j <= list[i].spec_bytes().len(),
    ensures
        out.len() == list.len(),
        out[i]@.len() == list[i].spec_bytes().len() + 1,
        j < list[i].spec_bytes().len() ==> out[i]@[j] == list[i].spec_bytes()[j],
        out[i]@.last() == 0,
{
}

} // verus!
