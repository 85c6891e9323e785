//! Text encoding of the account store (namespace -> account -> secret) and
//! its password obfuscation.
use vstd::prelude::*;

verus! {

/// One namespace: its name and its (account name, secret) pairs.
pub type Namespace = (Vec<u8>, Vec<(Vec<u8>, Vec<u8>)>);

/// `s` between double quotes.
pub open spec fn quoted(s: Seq<u8>) -> Seq<u8> {
    seq![0x22u8] + s + seq![0x22u8]
}

/// `"name":"secret",` for each account with a non-empty name, in order.
pub open spec fn accounts_text(accounts: Seq<(Vec<u8>, Vec<u8>)>) -> Seq<u8>
    decreases accounts.len(),
{
    if accounts.len() == 0 {
        seq![]
    } else {
        let prev = accounts_text(accounts.drop_last());
        let (name, secret) = accounts.last();
        if name@.len() == 0 {
            prev
        } else {
            prev + quoted(name@) + seq![0x3au8] + quoted(secret@) + seq![0x2cu8]
        }
    }
}

/// `"ns":{accounts"":""},` for a namespace with a non-empty name.
pub open spec fn namespace_text(ns: Namespace) -> Seq<u8> {
    quoted(ns.0@) + seq![0x3au8, 0x7bu8] + accounts_text(ns.1@) + seq![
        0x22u8,
        0x22u8,
        0x3au8,
        0x22u8,
        0x22u8,
        0x7du8,
        0x2cu8,
    ]
}

/// The text of each namespace with a non-empty name, in order.
pub open spec fn namespaces_text(db: Seq<Namespace>) -> Seq<u8>
    decreases db.len(),
{
    if db.len() == 0 {
        seq![]
    } else {
        let prev = namespaces_text(db.drop_last());
        if db.last().0@.len() == 0 {
            prev
        } else {
            prev + namespace_text(db.last())
        }
    }
}

/// The whole store as text: `{` namespaces `"":{} }`.
pub open spec fn store_text(db: Seq<Namespace>) -> Seq<u8> {
    seq![0x7bu8] + namespaces_text(db) + seq![0x22u8, 0x22u8, 0x3au8, 0x7bu8, 0x7du8, 0x20u8, 0x7du8]
}

/// `data` XOR-ed byte by byte with `password` repeated; unchanged for an
/// empty password.
pub open spec fn xor_stream(data: Seq<u8>, password: Seq<u8>) -> Seq<u8> {
    if password.len() == 0 {
        data
    } else {
        Seq::new(data.len(), |i: int| data[i] ^ password[i % password.len() as int])
    }
}

/// Appends `src` to `dst`.
fn push_all(dst: &mut Vec<u8>, src: &[u8])
    ensures
        final(dst)@ == old(dst)@ + src@,
{
    let n = src.len();
    let mut i: usize = 0;
    while i < n
        invariant
            i <= n,
            n == src@.len(),
            dst@ == old(dst)@ + src@.subrange(0, i as int),
        decreases n - i,
    {
        dst.push(src[i]);
        i += 1;
        assert(dst@ =~= old(dst)@ + src@.subrange(0, i as int));
    }
    assert(src@.subrange(0, n as int) =~= src@);
}

/// Appends `s` between double quotes.
fn push_quoted(dst: &mut Vec<u8>, s: &[u8])
    ensures
        final(dst)@ == old(dst)@ + quoted(s@),
{
    dst.push(0x22);
    push_all(dst, s);
    dst.push(0x22);
    assert(final(dst)@ =~= old(dst)@ + quoted(s@));
}

/// XORs `data` in place with `password` repeated (see `xor_stream`).
pub fn apply_password(data: &mut Vec<u8>, password: &[u8])
    ensures
        final(data)@ == xor_stream(old(data)@, password@),
{
    let plen = password.len();
    if plen == 0 {
        return;
    }
    let n = data.len();
    let mut i: usize = 0;
    while i < n
        invariant
            i <= n,
            n == data@.len(),
            plen == password@.len(),
            plen > 0,
            forall|j: int| 0 <= j < i ==> data@[j] == old(data)@[j] ^ password@[j % plen as int],
            forall|j: int| i <= j < n ==> data@[j] == old(data)@[j],
        decreases n - i,
    {
        let b = data[i] ^ password[i % plen];
        data.set(i, b);
        i += 1;
    }
    assert(data@ =~= xor_stream(old(data)@, password@));
}

/// Appends the text of each account with a non-empty name.
fn push_accounts(dst: &mut Vec<u8>, accounts: &Vec<(Vec<u8>, Vec<u8>)>)
    ensures
        final(dst)@ == old(dst)@ + accounts_text(accounts@),
{
    let n = accounts.len();
    let mut i: usize = 0;
    while i < n
        invariant
            i <= n,
            n == accounts@.len(),
            dst@ == old(dst)@ + accounts_text(accounts@.subrange(0, i as int)),
        decreases n - i,
    {
        let (name, secret) = &accounts[i];
        if name.len() != 0 {
            push_quoted(dst, name.as_slice());
            dst.push(0x3a);
            push_quoted(dst, secret.as_slice());
            dst.push(0x2c);
        }
        assert(accounts@.subrange(0, i + 1).drop_last() =~= accounts@.subrange(0, i as int));
        i += 1;
        assert(dst@ =~= old(dst)@ + accounts_text(accounts@.subrange(0, i as int)));
    }
    assert(accounts@.subrange(0, n as int) =~= accounts@);
}

/// The store text of `db`, obfuscated with `password` (see `store_text`
/// and `xor_stream`). Namespaces and accounts with empty names are left out.
pub fn write_db(password: &[u8], db: &Vec<Namespace>) -> (r: Vec<u8>)
    ensures
        r@ == xor_stream(store_text(db@), password@),
{
    let mut res: Vec<u8> = Vec::new();
    res.push(0x7b);
    let n = db.len();
    let mut i: usize = 0;
    while i < n
        invariant
            i <= n,
            n == db@.len(),
            res@ == seq![0x7bu8] + namespaces_text(db@.subrange(0, i as int)),
        decreases n - i,
    {
        let (key, accounts) = &db[i];
        if key.len() != 0 {
            let ghost before = res@;
            push_quoted(&mut res, key.as_slice());
            res.push(0x3a);
            res.push(0x7b);
            push_accounts(&mut res, accounts);
            push_all(&mut res, &[0x22, 0x22, 0x3a, 0x22, 0x22, 0x7d, 0x2c]);
            assert(res@ =~= before + namespace_text(db@[i as int]));
        }
        assert(db@.subrange(0, i + 1).drop_last() =~= db@.subrange(0, i as int));
        i += 1;
        assert(res@ =~= seq![0x7bu8] + namespaces_text(db@.subrange(0, i as int)));
    }
    assert(db@.subrange(0, n as int) =~= db@);
    push_all(&mut res, &[0x22, 0x22, 0x3a, 0x7b, 0x7d, 0x20, 0x7d]);
    assert(res@ =~= store_text(db@));
    apply_password(&mut res, password);
    res
}

proof fn lemma_xor_twice(a: u8, p: u8)
    by (bit_vector)
    ensures
        (a ^ p) ^ p == a,
{
}

/// Obfuscating twice with the same password gives the data back, so one
/// function both hides and reveals the store.
pub proof fn lemma_xor_stream_round_trip(data: Seq<u8>, password: Seq<u8>)
    ensures
        xor_stream(xor_stream(data, password), password) == data,
{
    if password.len() > 0 {
        assert forall|i: int| 0 <= i < data.len() implies #[trigger] xor_stream(
            xor_stream(data, password),
            password,
        )[i] == data[i] by {
            lemma_xor_twice(data[i], password[i % password.len() as int]);
        }
        assert(xor_stream(xor_stream(data, password), password) =~= data);
    }
}

} // verus!
