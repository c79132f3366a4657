//! The keystream that hides the audio body of a `.ncm` container.
use vstd::prelude::*;

verus! {

/// The sequence `0, 1, .., 255` that the key schedule starts from.
pub open spec fn identity_box() -> Seq<u8> {
    Seq::new(256, |i: int| i as u8)
}

/// `s` with the elements at `i` and `j` exchanged.
pub open spec fn exchange(s: Seq<u8>, i: int, j: int) -> Seq<u8> {
    s.update(i, s[j]).update(j, s[i])
}

/// The key schedule after `rounds` rounds: the box, and the index that the last round swapped to.
///
/// The key bytes are used cyclically, one per round.
pub open spec fn key_schedule(key_data: Seq<u8>, rounds: nat) -> (Seq<u8>, int)
    decreases rounds,
{
    if rounds == 0 {
        (identity_box(), 0)
    } else {
        let (cells, last) = key_schedule(key_data, (rounds - 1) as nat);
        let i = rounds - 1;
        let c = (cells[i] + last + key_data[i % key_data.len() as int]) % 256;
        (exchange(cells, i, c), c)
    }
}

/// The key box that the content key `key_data` gives.
pub open spec fn key_box(key_data: Seq<u8>) -> Seq<u8> {
    key_schedule(key_data, 256).0
}

/// `cells` holds every byte value exactly once.
#[verifier::opaque]
pub open spec fn is_byte_permutation(cells: Seq<u8>) -> bool {
    &&& cells.len() == 256
    &&& cells.no_duplicates()
    &&& forall|b: u8| #[trigger] cells.contains(b)
}

/// The keystream byte at position `i`; only `i` modulo 256 matters.
pub open spec fn keystream_byte(cells: Seq<u8>, i: int) -> u8 {
    let k = i % 256;
    cells[(cells[k] + cells[(cells[k] + k) % 256]) % 256]
}

/// `data` XORed with the keystream bytes that follow position `pos`.
pub open spec fn xor_keystream(cells: Seq<u8>, pos: int, data: Seq<u8>) -> Seq<u8> {
    Seq::new(data.len(), |n: int| data[n] ^ keystream_byte(cells, pos + 1 + n))
}

/// What a [`Key`] stands for: a key box and the position reached in its keystream.
pub struct KeyView {
    pub cells: Seq<u8>,
    pub pos: int,
}

impl KeyView {
    /// The keystream of `key_data` at its start.
    pub open spec fn from_key_data(key_data: Seq<u8>) -> KeyView {
        KeyView { cells: key_box(key_data), pos: 0 }
    }

    /// The state after `n` more keystream bytes.
    pub open spec fn advance(self, n: int) -> KeyView {
        KeyView { cells: self.cells, pos: (self.pos + n) % 256 }
    }

    /// `data` as this state of the keystream encrypts or decrypts it.
    pub open spec fn transform(self, data: Seq<u8>) -> Seq<u8> {
        xor_keystream(self.cells, self.pos, data)
    }
}

proof fn lemma_exchange_permutation(s: Seq<u8>, i: int, j: int)
    requires
        is_byte_permutation(s),
        0 <= i < 256,
        0 <= j < 256,
    ensures
        is_byte_permutation(exchange(s, i, j)),
{
    reveal(is_byte_permutation);
    let t = exchange(s, i, j);
    assert forall|b: u8| #[trigger] t.contains(b) by {
        assert(s.contains(b));
        let k = choose|k: int| 0 <= k < s.len() && s[k] == b;
        if k == i {
            assert(t[j] == b);
        } else if k == j {
            assert(t[i] == b);
        } else {
            assert(t[k] == b);
        }
    }
}

/// Every round of the key schedule keeps the box a permutation of the byte values, and the swap
/// index a byte value.
pub proof fn lemma_key_schedule_permutation(key_data: Seq<u8>, rounds: nat)
    requires
        rounds <= 256,
    ensures
        is_byte_permutation(key_schedule(key_data, rounds).0),
        key_schedule(key_data, rounds).0.len() == 256,
        0 <= key_schedule(key_data, rounds).1 < 256,
    decreases rounds,
{
    reveal(is_byte_permutation);
    if rounds == 0 {
        let cells = identity_box();
        assert forall|b: u8| #[trigger] cells.contains(b) by {
            assert(cells[b as int] == b);
        }
    } else {
        lemma_key_schedule_permutation(key_data, (rounds - 1) as nat);
        let (cells, last) = key_schedule(key_data, (rounds - 1) as nat);
        let i = rounds - 1;
        let c = (cells[i] + last + key_data[i % key_data.len() as int]) % 256;
        lemma_exchange_permutation(cells, i, c);
    }
}

/// Builds the 256-byte key box from the raw content key.
pub fn build_keybox(key_data: &[u8]) -> (cells: Vec<u8>)
    requires
        key_data@.len() > 0,
    ensures
        cells@ == key_box(key_data@),
        cells@.len() == 256,
        is_byte_permutation(cells@),
{
    let mut cells: Vec<u8> = Vec::with_capacity(256);
    let mut b: u8 = 0;
    while b < 255
        invariant
            cells@ == identity_box().take(b as int),
        decreases 255 - b,
    {
        cells.push(b);
        assert(cells@ =~= identity_box().take(b + 1));
        b = b + 1;
    }
    cells.push(b);
    assert(cells@ =~= identity_box());

    let mut last_byte: u8 = 0;
    let mut key_offset: usize = 0;
    let mut i: usize = 0;
    while i < 256
        invariant
            i <= 256,
            key_data@.len() > 0,
            key_offset == i as int % key_data@.len() as int,
            key_schedule(key_data@, i as nat) == (cells@, last_byte as int),
            cells@.len() == 256,
        decreases 256 - i,
    {
        let c: u8 = cells[i].wrapping_add(last_byte).wrapping_add(key_data[key_offset]);
        assert(c == (cells@[i as int] + last_byte + key_data@[key_offset as int]) % 256);
        key_offset = key_offset + 1;
        if key_offset >= key_data.len() {
            key_offset = 0;
        }
        proof {
            lemma_next_offset(i as int, key_data@.len() as int);
        }
        let here: u8 = cells[i];
        let there: u8 = cells[c as usize];
        cells[i] = there;
        cells[c as usize] = here;
        last_byte = c;
        i = i + 1;
    }
    proof {
        lemma_key_schedule_permutation(key_data@, 256);
    }
    cells
}

proof fn lemma_next_offset(i: int, n: int)
    requires
        0 <= i,
        0 < n,
    ensures
        (i + 1) % n == if i % n + 1 >= n { 0 } else { i % n + 1 },
{
    vstd::arithmetic::div_mod::lemma_fundamental_div_mod(i, n);
    if i % n + 1 >= n {
        assert(i + 1 == n * (i / n + 1)) by (nonlinear_arith)
            requires
                i == n * (i / n) + i % n,
                i % n + 1 == n,
        ;
        vstd::arithmetic::div_mod::lemma_fundamental_div_mod_converse(i + 1, n, i / n + 1, 0);
    } else {
        assert(i + 1 == (i / n) * n + (i % n + 1)) by (nonlinear_arith)
            requires
                i == n * (i / n) + i % n,
        ;
        vstd::arithmetic::div_mod::lemma_fundamental_div_mod_converse(
            i + 1,
            n,
            i / n,
            i % n + 1,
        );
    }
}

/// The keystream that encrypts and decrypts the audio body of a `.ncm` file.
///
/// The keystream does not depend on the data, and the transform is a plain XOR, so one and the
/// same key does both.
#[derive(Debug)]
pub struct Key {
    key: Vec<u8>,
    i: u8,
}

impl View for Key {
    type V = KeyView;

    closed spec fn view(&self) -> KeyView {
        KeyView { cells: self.key@, pos: self.i as int }
    }
}

impl Key {
    #[verifier::type_invariant]
    spec fn has_full_box(self) -> bool {
        &&& self.key@.len() == 256
        &&& is_byte_permutation(self.key@)
    }

    /// Builds the keystream from the raw content key.
    pub fn from_key_data(key_data: &[u8]) -> (key: Self)
        requires
            key_data@.len() > 0,
        ensures
            key@ == KeyView::from_key_data(key_data@),
            key@.cells == key_box(key_data@),
            key@.pos == 0,
            0 <= key@.pos < 256,
    {
        Key { key: build_keybox(key_data), i: 0 }
    }

    /// The position reached in the keystream.
    pub(crate) fn position(&self) -> (pos: u8)
        ensures
            pos as int == self@.pos,
    {
        self.i
    }

    /// Moves to another position of the same keystream.
    pub(crate) fn seek(&mut self, pos: u8)
        ensures
            final(self)@ == (KeyView { cells: old(self)@.cells, pos: pos as int }),
    {
        proof {
            use_type_invariant(&*self);
        }
        self.i = pos;
    }

    /// The next keystream byte. The keystream never ends, so this is always `Some`.
    pub fn next(&mut self) -> (byte: Option<u8>)
        ensures
            byte == Some(keystream_byte(old(self)@.cells, old(self)@.pos + 1)),
            ({
                let s = old(self)@.cells;
                let i = (old(self)@.pos + 1) % 256;
                byte == Some(s[(s[i] + s[(s[i] + i) % 256]) % 256])
            }),
            final(self)@ == old(self)@.advance(1),
            final(self)@.cells == old(self)@.cells,
            final(self)@.pos == (old(self)@.pos + 1) % 256,
            0 <= old(self)@.pos < 256,
            0 <= final(self)@.pos < 256,
    {
        proof {
            use_type_invariant(&*self);
        }
        self.i = self.i.wrapping_add(1);
        let k: u8 = self.i;
        assert(k == (old(self)@.pos + 1) % 256);
        let a: u8 = self.key[k as usize];
        let at: u8 = a.wrapping_add(k);
        assert(at == (a + k) % 256);
        let b: u8 = self.key[at as usize];
        let out: u8 = a.wrapping_add(b);
        assert(out == (a + b) % 256);
        Some(self.key[out as usize])
    }

    /// XORs `buf` in place with the keystream, advancing it by one position per byte.
    pub fn apply(&mut self, buf: &mut [u8])
        ensures
            final(buf)@ == old(self)@.transform(old(buf)@),
            final(buf)@.len() == old(buf)@.len(),
            final(self)@ == old(self)@.advance(old(buf)@.len() as int),
            final(self)@.cells == old(self)@.cells,
            final(self)@.pos == (old(self)@.pos + old(buf)@.len()) % 256,
            0 <= old(self)@.pos < 256,
            0 <= final(self)@.pos < 256,
    {
        proof {
            use_type_invariant(&*self);
        }
        let ghost start = self@;
        let ghost data = buf@;
        let mut n: usize = 0;
        while n < buf.len()
            invariant
                n <= buf@.len(),
                buf@.len() == data.len(),
                0 <= start.pos < 256,
                self@ == start.advance(n as int),
                forall|m: int| 0 <= m < n ==> #[trigger] buf@[m] == start.transform(data)[m],
                forall|m: int| n <= m < data.len() ==> #[trigger] buf@[m] == data[m],
            decreases buf@.len() - n,
        {
            proof {
                lemma_next_place(start, n as int);
            }
            let mask: u8 = self.next().unwrap();
            assert(mask == keystream_byte(start.cells, start.pos + 1 + n));
            buf[n] = buf[n] ^ mask;
            n = n + 1;
        }
        assert(buf@ =~= start.transform(data));
    }
}

impl Clone for Key {
    fn clone(&self) -> (copy: Self)
        ensures
            copy@ == self@,
            0 <= copy@.pos < 256,
    {
        proof {
            use_type_invariant(self);
        }
        let key: Vec<u8> = self.key.clone();
        assert(key@ =~= self.key@);
        Key { key, i: self.i }
    }
}

proof fn lemma_same_residue(i: int, j: int)
    requires
        (i - j) % 256 == 0,
    ensures
        i % 256 == j % 256,
{
}

proof fn lemma_next_place(start: KeyView, n: int)
    ensures
        keystream_byte(start.cells, start.advance(n).pos + 1) == keystream_byte(
            start.cells,
            start.pos + 1 + n,
        ),
        start.advance(n).advance(1) == start.advance(n + 1),
{
    lemma_same_residue(start.advance(n).pos + 1, start.pos + 1 + n);
}

/// The keystream repeats every 256 positions.
pub proof fn law_keystream_period(cells: Seq<u8>, i: int)
    ensures
        keystream_byte(cells, i + 256) == keystream_byte(cells, i),
{
}

/// Transforming nothing leaves the keystream where it is.
pub proof fn law_advance_by_nothing(key: KeyView)
    requires
        0 <= key.pos < 256,
    ensures
        key.advance(0) == key,
{
}

/// Transforming twice from the same keystream state gives the data back.
pub proof fn law_transform_is_symmetric(key: KeyView, data: Seq<u8>)
    ensures
        key.transform(key.transform(data)) == data,
{
    assert forall|n: int| 0 <= n < data.len() implies #[trigger] key.transform(
        key.transform(data),
    )[n] == data[n] by {
        let x = data[n];
        let k = keystream_byte(key.cells, key.pos + 1 + n);
        assert((x ^ k) ^ k == x) by (bit_vector);
    }
    assert(key.transform(key.transform(data)) =~= data);
}

/// Transforming data in two chunks, one after the other, is the same as transforming it at once.
pub proof fn law_transform_in_chunks(key: KeyView, first: Seq<u8>, second: Seq<u8>)
    ensures
        key.transform(first + second) == key.transform(first) + key.advance(
            first.len() as int,
        ).transform(second),
        key.advance(first.len() as int).advance(second.len() as int) == key.advance(
            (first + second).len() as int,
        ),
{
    let whole = key.transform(first + second);
    let parts = key.transform(first) + key.advance(first.len() as int).transform(second);
    assert forall|n: int| 0 <= n < whole.len() implies #[trigger] whole[n] == parts[n] by {
        if n >= first.len() {
            let m = n - first.len();
            assert((first + second)[n] == second[m]);
            lemma_same_residue(key.pos + 1 + n, key.advance(first.len() as int).pos + 1 + m);
        }
    }
    assert(whole =~= parts);
}

/// The keystream byte at position `i` is the cell at the sum of two cells: the one at `i`, and the
/// one that lies that cell's value further on. This holds of every position.
pub proof fn law_keystream_is_drawn_from_the_box(s: Seq<u8>, i: int, a: u8, b: u8)
    requires
        s.len() == 256,
        a == s[i % 256],
        b == s[(a + i) % 256],
    ensures
        keystream_byte(s, i) == s[(a + b) % 256],
{
    lemma_same_residue(a + i, a + i % 256);
}

/// In the box that holds every value at its own place, the keystream byte at `i` is three times
/// `i`.
pub proof fn law_keystream_of_the_identity_box(i: int)
    ensures
        keystream_byte(identity_box(), i) == (3 * i) % 256,
{
    let k = i % 256;
    let s = identity_box();
    assert(s[k] == k);
    let m = (k + k) % 256;
    assert(s[m] == m);
    let r = (k + m) % 256;
    assert(s[r] == r);
    assert((3 * i - r) % 256 == 0) by {
        let (p, q) = (i / 256, (k + k) / 256);
        assert(3 * i - r == 256 * (3 * p + q + (k + m) / 256));
    }
    lemma_same_residue(3 * i, r);
}

/// Every byte that is transformed differs from the byte it was made of by the keystream byte of its
/// place, which comes from the box, and by nothing else.
pub proof fn law_transform_is_the_keystream(key: KeyView, data: Seq<u8>, n: int)
    requires
        key.cells.len() == 256,
        0 <= n < data.len(),
    ensures
        key.transform(data).len() == data.len(),
        ({
            let s = key.cells;
            let i = (key.pos + 1 + n) % 256;
            data[n] ^ key.transform(data)[n] == s[(s[i] + s[(s[i] + i) % 256]) % 256]
        }),
{
    let x = data[n];
    let k = keystream_byte(key.cells, key.pos + 1 + n);
    assert(x ^ (x ^ k) == k) by (bit_vector);
}

/// The keystream moves on by one position per byte, round the 256 positions of one and the same
/// box, and steps add up.
pub proof fn law_keystream_moves_on(key: KeyView, m: int, n: int)
    ensures
        key.advance(n).cells == key.cells,
        key.advance(n).pos == (key.pos + n) % 256,
        key.advance(m).advance(n) == key.advance(m + n),
{
    lemma_same_residue(key.advance(m).pos + n, key.pos + m + n);
}

proof fn lemma_schedule_follows(
    key_data: Seq<u8>,
    boxes: Seq<Seq<u8>>,
    swaps: Seq<int>,
    rounds: nat,
)
    requires
        is_schedule_run(key_data, boxes, swaps),
        rounds <= 256,
    ensures
        key_schedule(key_data, rounds) == (boxes[rounds as int], swaps[rounds as int]),
    decreases rounds,
{
    if rounds == 0 {
        assert(boxes[0] =~= identity_box());
    } else {
        let i = rounds - 1;
        lemma_schedule_follows(key_data, boxes, swaps, i as nat);
        lemma_key_schedule_permutation(key_data, i as nat);
        assert(is_schedule_round(key_data, boxes, swaps, i));
        assert(boxes[i + 1] =~= exchange(boxes[i], i, swaps[i + 1]));
    }
}

/// Round `i` of a run of the key schedule: the index moves on by the cell at `i` and the key byte
/// of the round, and the cells at `i` and at the index change places.
pub open spec fn is_schedule_round(
    key_data: Seq<u8>,
    boxes: Seq<Seq<u8>>,
    swaps: Seq<int>,
    i: int,
) -> bool {
    let (s, t, j) = (boxes[i], boxes[i + 1], swaps[i + 1]);
    &&& j == (swaps[i] + s[i] + key_data[i % key_data.len() as int]) % 256
    &&& t.len() == 256
    &&& t[i] == s[j]
    &&& t[j] == s[i]
    &&& forall|x: int| 0 <= x < 256 && x != i && x != j ==> #[trigger] t[x] == s[x]
}

/// A run of the key schedule: the boxes before the first round and after each of the 256, and the
/// indices that the rounds swapped to.
pub open spec fn is_schedule_run(
    key_data: Seq<u8>,
    boxes: Seq<Seq<u8>>,
    swaps: Seq<int>,
) -> bool {
    &&& boxes.len() == 257
    &&& swaps.len() == 257
    &&& boxes[0].len() == 256
    &&& forall|x: int| 0 <= x < 256 ==> #[trigger] boxes[0][x] == x
    &&& swaps[0] == 0
    &&& forall|i: int| 0 <= i < 256 ==> #[trigger] is_schedule_round(key_data, boxes, swaps, i)
}

/// The key box is what a run of 256 swaps, each steered by one key byte, ends with.
pub proof fn law_key_box_ends_a_schedule_run(
    key_data: Seq<u8>,
    boxes: Seq<Seq<u8>>,
    swaps: Seq<int>,
)
    requires
        key_data.len() > 0,
        is_schedule_run(key_data, boxes, swaps),
    ensures
        key_box(key_data) == boxes[256],
{
    lemma_schedule_follows(key_data, boxes, swaps, 256);
}

proof fn lemma_same_key_bytes(a: Seq<u8>, b: Seq<u8>, rounds: nat)
    requires
        a.len() > 0,
        b.len() > 0,
        rounds <= 256,
        forall|i: int|
            #![trigger a[i % a.len() as int]]
            #![trigger b[i % b.len() as int]]
            0 <= i < 256 ==> a[i % a.len() as int] == b[i % b.len() as int],
    ensures
        key_schedule(a, rounds) == key_schedule(b, rounds),
    decreases rounds,
{
    if rounds > 0 {
        lemma_same_key_bytes(a, b, (rounds - 1) as nat);
        let i = rounds - 1;
        assert(a[i % a.len() as int] == b[i % b.len() as int]);
    }
}

/// The key is used cyclically: writing it twice changes nothing. And 256 bytes of it are used at
/// most: what comes after them changes nothing.
pub proof fn law_key_is_used_cyclically(key_data: Seq<u8>, more: Seq<u8>)
    requires
        key_data.len() > 0,
    ensures
        key_box(key_data + key_data) == key_box(key_data),
        key_data.len() >= 256 ==> key_box(key_data + more) == key_box(key_data),
{
    let twice = key_data + key_data;
    let n = key_data.len() as int;
    assert forall|i: int|
        #![trigger twice[i % twice.len() as int]]
        #![trigger key_data[i % key_data.len() as int]]
        0 <= i < 256 implies twice[i % twice.len() as int] == key_data[i
        % key_data.len() as int] by {
        let r = i % (2 * n);
        vstd::arithmetic::div_mod::lemma_fundamental_div_mod(i, 2 * n);
        vstd::arithmetic::div_mod::lemma_mod_bound(i, 2 * n);
        let q = i / (2 * n);
        if r < n {
            assert(i == (2 * q) * n + r) by (nonlinear_arith)
                requires
                    i == (2 * n) * q + r,
            ;
            vstd::arithmetic::div_mod::lemma_fundamental_div_mod_converse(i, n, 2 * q, r);
        } else {
            assert(i == (2 * q + 1) * n + (r - n)) by (nonlinear_arith)
                requires
                    i == (2 * n) * q + r,
            ;
            vstd::arithmetic::div_mod::lemma_fundamental_div_mod_converse(i, n, 2 * q + 1, r - n);
        }
    }
    lemma_same_key_bytes(twice, key_data, 256);
    if n >= 256 {
        let longer = key_data + more;
        assert forall|i: int|
            #![trigger longer[i % longer.len() as int]]
            #![trigger key_data[i % key_data.len() as int]]
            0 <= i < 256 implies longer[i % longer.len() as int] == key_data[i
            % key_data.len() as int] by {
            vstd::arithmetic::div_mod::lemma_small_mod(i as nat, longer.len());
            vstd::arithmetic::div_mod::lemma_small_mod(i as nat, key_data.len());
        }
        lemma_same_key_bytes(longer, key_data, 256);
    }
}

/// A keystream begins before the first position of the box of its key.
pub proof fn law_keystream_begins_at_the_start(key_data: Seq<u8>)
    ensures
        KeyView::from_key_data(key_data).pos == 0,
        KeyView::from_key_data(key_data).cells == key_box(key_data),
        key_box(key_data).len() == 256,
{
    lemma_key_schedule_permutation(key_data, 256);
}

/// One round of the key schedule, number `i`: the index moves on by the cell at `i` and the key
/// byte of the round, the cells at `i` and at the index change places, and no other cell changes.
/// Before the first round every cell holds its own place, and the index is 0; the key box is what
/// round 255 leaves.
pub proof fn law_key_schedule_round(key_data: Seq<u8>, i: nat)
    requires
        i < 256,
        key_data.len() > 0,
    ensures
        key_schedule(key_data, 0).1 == 0,
        forall|x: int| 0 <= x < 256 ==> #[trigger] key_schedule(key_data, 0).0[x] == x,
        ({
            let (s, before) = key_schedule(key_data, i);
            let (t, j) = key_schedule(key_data, i + 1);
            &&& j == (before + s[i as int] + key_data[i as int % key_data.len() as int]) % 256
            &&& t.len() == 256
            &&& t[i as int] == s[j]
            &&& t[j] == s[i as int]
            &&& forall|x: int| 0 <= x < 256 && x != i && x != j ==> #[trigger] t[x] == s[x]
        }),
        key_box(key_data) == key_schedule(key_data, 256).0,
{
    lemma_key_schedule_permutation(key_data, i);
    lemma_key_schedule_permutation(key_data, i + 1);
}

/// The key box holds every byte value, and holds none twice.
pub proof fn law_key_box_holds_every_byte_once(key_data: Seq<u8>, b: u8, i: int, j: int)
    requires
        0 <= i < j < 256,
    ensures
        key_box(key_data).len() == 256,
        exists|x: int| 0 <= x < 256 && #[trigger] key_box(key_data)[x] == b,
        key_box(key_data)[i] != key_box(key_data)[j],
{
    lemma_key_schedule_permutation(key_data, 256);
    reveal(is_byte_permutation);
    assert(key_box(key_data).contains(b));
}

} // verus!
