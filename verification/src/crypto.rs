use vstd::prelude::*;
use vstd::slice::slice_to_vec;
use vstd::string::*;
use vstd::utf8::encode_utf8;

verus! {

/// One byte moved by one key byte: forward adds the key byte modulo 256,
/// backward subtracts it modulo 256.
pub open spec fn shift_byte(b: u8, k: u8, forward: bool) -> u8 {
    if forward {
        ((b + k) % 256) as u8
    } else {
        ((b - k) % 256) as u8
    }
}

/// The Vigenère transform of `data` under `key`: byte `i` is moved by key
/// byte `i mod |key|`, in the direction `forward` gives.
pub open spec fn vigenere(data: Seq<u8>, key: Seq<u8>, forward: bool) -> Seq<u8> {
    Seq::new(data.len(), |i: int| shift_byte(data[i], key[i % (key.len() as int)], forward))
}

/// A Vigenère cipher over bytes, keyed by the UTF-8 bytes of a string.
pub struct VigenereCipher {
    key: Vec<u8>,
}

impl VigenereCipher {
    /// The key bytes of the cipher.
    pub closed spec fn key_bytes(&self) -> Seq<u8> {
        self.key@
    }

    /// A cipher whose key is the UTF-8 encoding of `key`.
    pub fn new(key: &str) -> (cipher: Self)
        ensures
            cipher.key_bytes() == key.spec_bytes(),
    {
        VigenereCipher { key: slice_to_vec(key.as_bytes()) }
    }

    /// Adds the key, byte by byte and modulo 256, to `plaintext`.
    /// An empty key only accepts empty data.
    pub fn encrypt(&self, plaintext: Vec<u8>) -> (ciphertext: Vec<u8>)
        requires
            self.key_bytes().len() > 0 || plaintext.len() == 0,
        ensures
            ciphertext@ == vigenere(plaintext@, self.key_bytes(), true),
            ciphertext@.len() == plaintext@.len(),
            forall|i: int|
                0 <= i < plaintext@.len() ==> #[trigger] ciphertext@[i] == (plaintext@[i]
                    + self.key_bytes()[i % (self.key_bytes().len() as int)]) % 256,
    {
        let out = self.apply_cipher(plaintext, true);
        proof {
            lemma_encrypt_adds_key(plaintext@, self.key_bytes());
        }
        out
    }

    /// Subtracts the key, byte by byte and modulo 256, from `ciphertext`.
    /// An empty key only accepts empty data.
    pub fn decrypt(&self, ciphertext: Vec<u8>) -> (plaintext: Vec<u8>)
        requires
            self.key_bytes().len() > 0 || ciphertext.len() == 0,
        ensures
            plaintext@ == vigenere(ciphertext@, self.key_bytes(), false),
            plaintext@.len() == ciphertext@.len(),
            forall|i: int|
                0 <= i < ciphertext@.len() ==> (#[trigger] plaintext@[i] + self.key_bytes()[i
                    % (self.key_bytes().len() as int)]) % 256 == ciphertext@[i],
    {
        let out = self.apply_cipher(ciphertext, false);
        proof {
            lemma_decrypt_subtracts_key(ciphertext@, self.key_bytes());
        }
        out
    }

    fn apply_cipher(&self, data: Vec<u8>, encrypt: bool) -> (out: Vec<u8>)
        requires
            self.key@.len() > 0 || data.len() == 0,
        ensures
            out@ == vigenere(data@, self.key@, encrypt),
    {
        let mut result: Vec<u8> = Vec::with_capacity(data.len());
        let key_len = self.key.len();
        let mut i: usize = 0;
        while i < data.len()
            invariant
                i <= data.len(),
                key_len == self.key@.len(),
                key_len > 0 || data.len() == 0,
                result@.len() == i,
                forall|j: int|
                    0 <= j < i ==> result@[j] == shift_byte(
                        data@[j],
                        self.key@[j % (key_len as int)],
                        encrypt,
                    ),
            decreases data.len() - i,
        {
            let key_byte = self.key[i % key_len];
            let data_byte = data[i];
            let shifted = if encrypt {
                data_byte.wrapping_add(key_byte)
            } else {
                data_byte.wrapping_sub(key_byte)
            };
            result.push(shifted);
            i += 1;
        }
        assert(result@ =~= vigenere(data@, self.key@, encrypt));
        result
    }
}

/// Encrypting adds the key byte `i mod |key|` to data byte `i`, modulo 256.
pub proof fn lemma_encrypt_adds_key(data: Seq<u8>, key: Seq<u8>)
    ensures
        vigenere(data, key, true).len() == data.len(),
        forall|i: int|
            0 <= i < data.len() ==> #[trigger] vigenere(data, key, true)[i] == (data[i] + key[i
                % (key.len() as int)]) % 256,
{
}

/// Decrypting gives, at each position, the byte to which adding the key
/// byte `i mod |key|` modulo 256 gives the data byte.
pub proof fn lemma_decrypt_subtracts_key(data: Seq<u8>, key: Seq<u8>)
    ensures
        vigenere(data, key, false).len() == data.len(),
        forall|i: int|
            0 <= i < data.len() ==> (#[trigger] vigenere(data, key, false)[i] + key[i % (
            key.len() as int)]) % 256 == data[i],
{
    assert forall|i: int| 0 <= i < data.len() implies (#[trigger] vigenere(data, key, false)[i]
        + key[i % (key.len() as int)]) % 256 == data[i] by {
        let k = key[i % (key.len() as int)];
        let b = data[i];
        assert(((((b - k) % 256) as u8 + k) % 256) as u8 == b);
    }
}

/// Encrypting zero bytes spells out the key, repeated.
pub proof fn lemma_encrypt_zeros_gives_key(data: Seq<u8>, key: Seq<u8>)
    requires
        forall|i: int| 0 <= i < data.len() ==> data[i] == 0,
    ensures
        forall|i: int|
            0 <= i < data.len() ==> #[trigger] vigenere(data, key, true)[i] == key[i % (
            key.len() as int)],
{
}

/// Two different keys of the same length give different ciphertexts of
/// zero data at least as long as the keys.
pub proof fn lemma_distinct_keys_distinct_output(data: Seq<u8>, k1: Seq<u8>, k2: Seq<u8>)
    requires
        k1.len() == k2.len(),
        k1 != k2,
        k1.len() <= data.len(),
        forall|i: int| 0 <= i < data.len() ==> data[i] == 0,
    ensures
        vigenere(data, k1, true) != vigenere(data, k2, true),
{
    let n = k1.len() as int;
    assert(exists|j: int| 0 <= j < n && k1[j] != k2[j]) by {
        if forall|j: int| 0 <= j < n ==> k1[j] == k2[j] {
            assert(k1 =~= k2);
        }
    }
    let j = choose|j: int| 0 <= j < n && k1[j] != k2[j];
    vstd::arithmetic::div_mod::lemma_small_mod(j as nat, n as nat);
    assert(vigenere(data, k1, true)[j] != vigenere(data, k2, true)[j]);
}

/// Decrypting what was encrypted under the same non-empty key gives the
/// plaintext back.
pub proof fn lemma_decrypt_undoes_encrypt(data: Seq<u8>, key: Seq<u8>)
    requires
        key.len() > 0,
    ensures
        vigenere(vigenere(data, key, true), key, false) == data,
{
    let once = vigenere(data, key, true);
    assert forall|i: int| 0 <= i < data.len() implies #[trigger] vigenere(once, key, false)[i]
        == data[i] by {
        let k = key[i % (key.len() as int)];
        let b = data[i];
        assert(((((b + k) % 256) as u8 - k) % 256) as u8 == b);
    }
    assert(vigenere(once, key, false) =~= data);
}

/// Encrypting what was decrypted under the same non-empty key gives the
/// ciphertext back.
pub proof fn lemma_encrypt_undoes_decrypt(data: Seq<u8>, key: Seq<u8>)
    requires
        key.len() > 0,
    ensures
        vigenere(vigenere(data, key, false), key, true) == data,
{
    let once = vigenere(data, key, false);
    assert forall|i: int| 0 <= i < data.len() implies #[trigger] vigenere(once, key, true)[i]
        == data[i] by {
        let k = key[i % (key.len() as int)];
        let b = data[i];
        assert(((((b - k) % 256) as u8 + k) % 256) as u8 == b);
    }
    assert(vigenere(once, key, true) =~= data);
}

/// Both directions keep the length of the data.
pub proof fn lemma_cipher_keeps_length(data: Seq<u8>, key: Seq<u8>, forward: bool)
    ensures
        vigenere(data, key, forward).len() == data.len(),
{
}

/// A key that is the same block of bytes twice works as the block alone.
pub proof fn lemma_doubled_key_is_same_key(data: Seq<u8>, key: Seq<u8>, forward: bool)
    requires
        key.len() > 0,
    ensures
        vigenere(data, key + key, forward) == vigenere(data, key, forward),
{
    let n = key.len() as int;
    assert forall|i: int| 0 <= i < data.len() implies #[trigger] vigenere(data, key + key, forward)[i]
        == vigenere(data, key, forward)[i] by {
        let j = i % (2 * n);
        vstd::arithmetic::div_mod::lemma_mod_mod(i, n, 2);
        assert(n * 2 == 2 * n);
        assert(0 <= j < 2 * n) by {
            vstd::arithmetic::div_mod::lemma_mod_bound(i, 2 * n);
        }
        assert(j % n == i % n);
        if j >= n {
            assert(j % n == j - n) by {
                vstd::arithmetic::div_mod::lemma_mod_sub_multiples_vanish(j, n);
                vstd::arithmetic::div_mod::lemma_small_mod((j - n) as nat, n as nat);
            }
        } else {
            vstd::arithmetic::div_mod::lemma_small_mod(j as nat, n as nat);
        }
        assert((key + key)[j] == key[i % n]);
    }
    assert(vigenere(data, key + key, forward) =~= vigenere(data, key, forward));
}

/// A key of zero bytes leaves the data as it is.
pub proof fn lemma_zero_key_is_identity(data: Seq<u8>, key: Seq<u8>, forward: bool)
    requires
        key.len() > 0,
        forall|i: int| 0 <= i < key.len() ==> key[i] == 0,
    ensures
        vigenere(data, key, forward) == data,
{
    assert forall|i: int| 0 <= i < data.len() implies #[trigger] vigenere(data, key, forward)[i]
        == data[i] by {
        let j = i % (key.len() as int);
        vstd::arithmetic::div_mod::lemma_mod_bound(i, key.len() as int);
        assert(key[j] == 0);
    }
    assert(vigenere(data, key, forward) =~= data);
}

/// Each output byte depends only on the bytes before it: transforming a
/// prefix gives the prefix of the transform.
pub proof fn lemma_prefix_of_transform(data: Seq<u8>, key: Seq<u8>, forward: bool, n: int)
    requires
        0 <= n <= data.len(),
    ensures
        vigenere(data.take(n), key, forward) == vigenere(data, key, forward).take(n),
{
    assert(vigenere(data.take(n), key, forward) =~= vigenere(data, key, forward).take(n));
}

/// The UTF-8 encoding of two strings joined is the two encodings joined.
pub proof fn lemma_encode_utf8_append(a: Seq<char>, b: Seq<char>)
    ensures
        encode_utf8(a + b) == encode_utf8(a) + encode_utf8(b),
    decreases a.len(),
{
    if a.len() == 0 {
        assert(a + b =~= b);
        assert(encode_utf8(a) + encode_utf8(b) =~= encode_utf8(b));
    } else {
        assert((a + b).drop_first() =~= a.drop_first() + b);
        assert((a + b)[0] == a[0]);
        lemma_encode_utf8_append(a.drop_first(), b);
        let e = vstd::utf8::encode_scalar(a[0] as u32);
        assert(e + (encode_utf8(a.drop_first()) + encode_utf8(b)) =~= (e + encode_utf8(
            a.drop_first(),
        )) + encode_utf8(b));
    }
}

/// A key string written twice ciphers as the string once, when it is not
/// empty.
pub proof fn lemma_doubled_key_string(data: Seq<u8>, key: Seq<char>, forward: bool)
    requires
        key.len() > 0,
    ensures
        vigenere(data, encode_utf8(key + key), forward) == vigenere(data, encode_utf8(key), forward),
{
    lemma_encode_utf8_append(key, key);
    assert(encode_utf8(key).len() > 0) by {
        reveal_with_fuel(encode_utf8, 1);
        let e = vstd::utf8::encode_scalar(key[0] as u32);
        assert(e.len() > 0);
        assert(encode_utf8(key) == e + encode_utf8(key.drop_first()));
    }
    lemma_doubled_key_is_same_key(data, encode_utf8(key), forward);
}

/// The key string "\0" leaves the data as it is.
pub proof fn lemma_nul_key_string_is_identity(data: Seq<u8>, forward: bool)
    ensures
        vigenere(data, encode_utf8(seq!['\0']), forward) == data,
{
    let k = seq!['\0'];
    assert(k.drop_first() =~= Seq::<char>::empty());
    assert(encode_utf8(k) =~= seq![0u8]) by {
        let z: u32 = 0;
        assert(0u32 & 0x7Fu32 == 0u32) by (bit_vector);
        assert(('\0' as u32) == 0);
        assert(vstd::utf8::encode_scalar(z) =~= seq![0u8]);
        assert(encode_utf8(k) == vstd::utf8::encode_scalar(z) + encode_utf8(
            Seq::<char>::empty(),
        ));
    }
    lemma_zero_key_is_identity(data, encode_utf8(k), forward);
}

} // verus!
