//! Key derivation, and the selection of the packet cipher.
use vstd::prelude::*;
use vstd::slice::slice_subrange;
use vstd::string::*;
use vstd::utf8::encode_utf8;

use crate::text::str_eq;

verus! {

/// PBKDF2 salt used to derive the session key from `-key`.
pub const SALT: &'static str = "kcp-go";

/// PBKDF2 iteration count.
pub const PBKDF2_ITER: u32 = 4096;

/// The 32 bytes that PBKDF2 with HMAC-SHA1 derives.
pub uninterp spec fn pbkdf2_hmac_sha1(password: Seq<u8>, salt: Seq<u8>, rounds: u32) -> Seq<u8>;

/// `pbkdf2::pbkdf2_hmac_array::<Sha1, 32>`: a function of the password, the salt and the number of
/// rounds.
#[verifier::external_body]
fn pbkdf2_sha1(password: &[u8], salt: &[u8], rounds: u32) -> (r: [u8; 32])
    ensures
        r@ == pbkdf2_hmac_sha1(password@, salt@, rounds),
{
    pbkdf2::pbkdf2_hmac_array::<sha1::Sha1, 32>(password, salt, rounds)
}

/// Derives the 32-byte `pass` from the `-key` value. Every packet cipher key is a prefix of it.
pub fn derive_pass(key: &str) -> (pass: [u8; 32])
    ensures
        pass@ == pbkdf2_hmac_sha1(encode_utf8(key@), encode_utf8(SALT@), PBKDF2_ITER),
{
    pbkdf2_sha1(key.as_bytes(), SALT.as_bytes(), PBKDF2_ITER)
}

/// The size of the key that a method takes from the pass, zero standing for the whole of it; none
/// for a name that is not a method. Names are matched exactly.
pub open spec fn method_key_size(name: Seq<char>) -> Option<int> {
    if name == "null"@ || name == "xor"@ || name == "none"@ || name == "blowfish"@ || name
        == "twofish"@ || name == "salsa20"@ {
        Some(0)
    } else if name == "sm4"@ || name == "tea"@ || name == "aes-128"@ || name == "cast5"@ || name
        == "xtea"@ || name == "aes-128-gcm"@ {
        Some(16)
    } else if name == "aes-192"@ || name == "3des"@ {
        Some(24)
    } else {
        None
    }
}

/// The names of the methods, in order.
pub open spec fn method_names() -> Seq<Seq<char>> {
    seq![
        "null"@,
        "sm4"@,
        "tea"@,
        "xor"@,
        "none"@,
        "aes-128"@,
        "aes-192"@,
        "blowfish"@,
        "twofish"@,
        "cast5"@,
        "3des"@,
        "xtea"@,
        "salsa20"@,
        "aes-128-gcm"@,
    ]
}

/// A supported `-crypt` method.
#[derive(Debug, Clone, Copy, PartialEq, Eq)]
pub struct CryptMethod {
    pub name: &'static str,
    /// The size of its key, zero standing for the whole pass.
    pub key_size: usize,
}

/// One entry of the table.
fn entry(name: &'static str, key_size: usize) -> (m: CryptMethod)
    ensures
        m.name == name,
        m.key_size == key_size,
{
    CryptMethod { name, key_size }
}

/// The supported methods. AES is not among them: it is what an unknown name stands for.
pub fn crypt_methods() -> (v: Vec<CryptMethod>)
    ensures
        v.len() == method_names().len(),
        forall|i: int| 0 <= i < v.len() ==> (#[trigger] v@[i]).name@ == method_names()[i],
        forall|i: int|
            0 <= i < v.len() ==> method_key_size((#[trigger] v@[i]).name@) == Some(
                v@[i].key_size as int,
            ),
        forall|name: Seq<char>| #[trigger]
            method_key_size(name) is Some ==> exists|i: int|
                0 <= i < v.len() && (#[trigger] v@[i]).name@ == name,
{
    proof {
        reveal_strlit("null");
        reveal_strlit("sm4");
        reveal_strlit("tea");
        reveal_strlit("xor");
        reveal_strlit("none");
        reveal_strlit("aes-128");
        reveal_strlit("aes-192");
        reveal_strlit("blowfish");
        reveal_strlit("twofish");
        reveal_strlit("cast5");
        reveal_strlit("3des");
        reveal_strlit("xtea");
        reveal_strlit("salsa20");
        reveal_strlit("aes-128-gcm");
    }
    let mut v: Vec<CryptMethod> = Vec::new();
    v.push(entry("null", 0));
    v.push(entry("sm4", 16));
    v.push(entry("tea", 16));
    v.push(entry("xor", 0));
    v.push(entry("none", 0));
    v.push(entry("aes-128", 16));
    v.push(entry("aes-192", 24));
    v.push(entry("blowfish", 0));
    v.push(entry("twofish", 0));
    v.push(entry("cast5", 16));
    v.push(entry("3des", 24));
    v.push(entry("xtea", 16));
    v.push(entry("salsa20", 0));
    v.push(entry("aes-128-gcm", 16));
    assert("null"@[0] == 'n' && "xor"@[0] == 'x' && "none"@[0] == 'n');
    assert("twofish"@[0] == 't' && "salsa20"@[0] == 's');
    assert("sm4"@[0] == 's' && "tea"@[0] == 't' && "xtea"@[0] == 'x' && "3des"@[0] == '3');
    assert("sm4"@.len() == 3 && "tea"@.len() == 3 && "null"@.len() == 4 && "none"@.len() == 4);
    assert("blowfish"@.len() == 8 && "twofish"@.len() == 7 && "salsa20"@.len() == 7);
    assert("aes-128"@[0] == 'a' && "aes-128"@[5] == '2');
    assert("aes-192"@[0] == 'a' && "aes-192"@[5] == '9');
    assert(v@[0].name@ == "null"@ && method_key_size("null"@) == Some(0int));
    assert(v@[1].name@ == "sm4"@ && method_key_size("sm4"@) == Some(16int));
    assert(v@[2].name@ == "tea"@ && method_key_size("tea"@) == Some(16int));
    assert(v@[3].name@ == "xor"@ && method_key_size("xor"@) == Some(0int));
    assert(v@[4].name@ == "none"@ && method_key_size("none"@) == Some(0int));
    assert(v@[5].name@ == "aes-128"@ && method_key_size("aes-128"@) == Some(16int));
    assert(v@[6].name@ == "aes-192"@ && method_key_size("aes-192"@) == Some(24int));
    assert(v@[7].name@ == "blowfish"@ && method_key_size("blowfish"@) == Some(0int));
    assert(v@[8].name@ == "twofish"@ && method_key_size("twofish"@) == Some(0int));
    assert(v@[9].name@ == "cast5"@ && method_key_size("cast5"@) == Some(16int));
    assert(v@[10].name@ == "3des"@ && method_key_size("3des"@) == Some(24int));
    assert(v@[11].name@ == "xtea"@ && method_key_size("xtea"@) == Some(16int));
    assert(v@[12].name@ == "salsa20"@ && method_key_size("salsa20"@) == Some(0int));
    assert(v@[13].name@ == "aes-128-gcm"@ && method_key_size("aes-128-gcm"@) == Some(16int));
    v
}

/// A method of the table by its name.
fn find_method(name: &str) -> (m: Option<CryptMethod>)
    ensures
        match m {
            Some(c) => c.name@ == name@ && method_key_size(name@) == Some(c.key_size as int),
            None => method_key_size(name@) is None,
        },
{
    let methods = crypt_methods();
    let mut i: usize = 0;
    while i < methods.len()
        invariant
            i <= methods.len(),
            forall|k: int| 0 <= k < i ==> (#[trigger] methods@[k]).name@ != name@,
            forall|k: int|
                0 <= k < methods.len() ==> method_key_size((#[trigger] methods@[k]).name@) == Some(
                    methods@[k].key_size as int,
                ),
            method_key_size(name@) is Some ==> exists|k: int|
                0 <= k < methods.len() && (#[trigger] methods@[k]).name@ == name@,
        decreases methods.len() - i,
    {
        if str_eq(methods[i].name, name) {
            return Some(methods[i]);
        }
        i = i + 1;
    }
    None
}

/// The key that a method is given: as many bytes of the pass as it takes, or the whole pass when
/// it takes all of it or when the pass is shorter. An unknown name is given the whole pass.
pub open spec fn method_key(name: Seq<char>, pass: Seq<u8>) -> Seq<u8> {
    match method_key_size(name) {
        Some(n) => if 0 < n <= pass.len() {
            pass.take(n)
        } else {
            pass
        },
        None => pass,
    }
}

/// What is to be built for a `-crypt` name: the method of the table, or AES for an unknown name,
/// and its key.
pub fn crypt_key<'p>(method: &str, pass: &'p [u8]) -> (r: (Option<&'static str>, &'p [u8]))
    ensures
        r.0 is Some <==> method_key_size(method@) is Some,
        r.0 is Some ==> r.0->0@ == method@,
        r.1@ == method_key(method@, pass@),
{
    match find_method(method) {
        Some(m) => {
            if m.key_size > 0 && pass.len() >= m.key_size {
                let key = slice_subrange(pass, 0, m.key_size);
                assert(key@ =~= pass@.take(m.key_size as int));
                (Some(m.name), key)
            } else {
                (Some(m.name), pass)
            }
        },
        None => (None, pass),
    }
}

/// The packet cipher that was selected.
#[derive(Debug)]
pub struct SelectedCrypt<C> {
    /// The cipher; `None` means no crypto (`-crypt null`, or an AES fallback that failed too).
    pub block: Option<C>,
    /// The effective method name: the requested name, or `"aes"` after a fallback or for an unknown
    /// name.
    pub method: &'static str,
    /// The line to be logged, if any.
    pub warning: Option<String>,
}

/// Selects the packet cipher for a `-crypt` name.
///
/// `built` is what came of building the cipher that [`crypt_key`] names, and `fallback` what came
/// of building AES with the whole pass after that failed.
///
/// - A known method that could be built is used; `null` builds nothing and means no crypto.
/// - A known method that could not be built falls back to AES, with a warning. If that fails too
///   there is no crypto, but the name is still `"aes"`.
/// - An unknown name (the empty one too) is AES, with a warning if it could not be built.
pub fn select_block_crypt<C>(
    method: &str,
    built: Result<Option<C>, String>,
    fallback: Option<C>,
) -> (r: SelectedCrypt<C>)
    ensures
        ({
            let known = method_key_size(method@) is Some;
            match built {
                Ok(block) => {
                    &&& r.block == block
                    &&& r.method@ == (if known { method@ } else { "aes"@ })
                    &&& r.warning is None
                },
                Err(err) => {
                    &&& r.method@ == "aes"@
                    &&& r.block == (if known { fallback } else { None })
                    &&& r.warning is Some
                    &&& r.warning->0@ == (if known {
                        "crypt: failed to create "@ + method@ + " cipher: "@ + err@
                            + ", falling back to aes"@
                    } else {
                        "crypt: failed to create default aes cipher: "@ + err@
                    })
                },
            }
        }),
{
    let known = find_method(method);
    match built {
        Ok(block) => SelectedCrypt {
            block,
            method: match known {
                Some(m) => m.name,
                None => "aes",
            },
            warning: None,
        },
        Err(err) => {
            if known.is_some() {
                let mut s = "crypt: failed to create ".to_owned();
                s.append(method);
                s.append(" cipher: ");
                s.append(err.as_str());
                s.append(", falling back to aes");
                SelectedCrypt { block: fallback, method: "aes", warning: Some(s) }
            } else {
                let mut s = "crypt: failed to create default aes cipher: ".to_owned();
                s.append(err.as_str());
                SelectedCrypt { block: None, method: "aes", warning: Some(s) }
            }
        },
    }
}

/// Every key is the beginning of the pass.
pub proof fn a_key_is_a_prefix_of_the_pass(name: Seq<char>, pass: Seq<u8>)
    ensures
        method_key(name, pass).is_prefix_of(pass),
{
    assert(pass.take(pass.len() as int) =~= pass);
}

/// The pass is derived from the key with the salt `kcp-go` in 4096 rounds, and a method is given as much
/// of it as its name says: sixteen bytes, twenty-four, or all of it. A name that is no method stands
/// for AES with all of it.
pub proof fn every_method_gets_its_key(
    key: &str,
    pass: [u8; 32],
    method: &str,
    bytes: &[u8],
    r: (Option<&'static str>, &[u8]),
)
    requires
        call_ensures(derive_pass, (key,), pass),
        bytes@ == pass@,
        call_ensures(crypt_key, (method, bytes), r),
    ensures
        pass@ == pbkdf2_hmac_sha1(encode_utf8(key@), encode_utf8("kcp-go"@), 4096),
        ({
            let m = method@;
            let sixteen = m == "sm4"@ || m == "tea"@ || m == "aes-128"@ || m == "cast5"@ || m
                == "xtea"@ || m == "aes-128-gcm"@;
            let all = m == "null"@ || m == "xor"@ || m == "none"@ || m == "blowfish"@ || m
                == "twofish"@ || m == "salsa20"@;
            let more = m == "aes-192"@ || m == "3des"@;
            &&& sixteen ==> r.1@ == pass@.take(16)
            &&& more ==> r.1@ == pass@.take(24)
            &&& !sixteen && !more ==> r.1@ == pass@
            &&& r.0 is Some <==> sixteen || more || all
            &&& r.0 is Some ==> r.0->0@ == m
        }),
{
    reveal_strlit("null");
    reveal_strlit("sm4");
    reveal_strlit("tea");
    reveal_strlit("xor");
    reveal_strlit("none");
    reveal_strlit("aes-128");
    reveal_strlit("aes-192");
    reveal_strlit("blowfish");
    reveal_strlit("twofish");
    reveal_strlit("cast5");
    reveal_strlit("3des");
    reveal_strlit("xtea");
    reveal_strlit("salsa20");
    reveal_strlit("aes-128-gcm");
    assert(pass@.len() == 32);
    assert("null"@[0] == 'n' && "xor"@[0] == 'x' && "none"@[0] == 'n');
    assert("twofish"@[0] == 't' && "salsa20"@[0] == 's');
    assert("sm4"@[0] == 's' && "tea"@[0] == 't' && "xtea"@[0] == 'x' && "3des"@[0] == '3');
    assert("sm4"@.len() == 3 && "tea"@.len() == 3 && "null"@.len() == 4 && "none"@.len() == 4);
    assert("blowfish"@.len() == 8 && "twofish"@.len() == 7 && "salsa20"@.len() == 7);
    assert("aes-128"@[0] == 'a' && "aes-128"@[5] == '2');
    assert("aes-192"@[0] == 'a' && "aes-192"@[5] == '9');
    assert(method_key_size("sm4"@) == Some(16int));
    assert(method_key_size("tea"@) == Some(16int));
    assert(method_key_size("aes-128"@) == Some(16int));
    assert(method_key_size("aes-192"@) == Some(24int));
    assert(method_key_size("cast5"@) == Some(16int));
    assert(method_key_size("3des"@) == Some(24int));
    assert("xtea"@ != "null"@ && "xtea"@ != "none"@) by {
        assert("xtea"@[0] != "null"@[0] && "xtea"@[0] != "none"@[0]);
    }
    assert("xtea"@.len() == 4 && "xor"@.len() == 3);
    assert(method_key_size("xtea"@) == Some(16int));
    assert(method_key_size("aes-128-gcm"@) == Some(16int));
}

} // verus!
