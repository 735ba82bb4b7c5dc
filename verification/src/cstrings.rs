//! C strings as raw bytes: what the daemon's arguments hold, and arrays to hand back to it.

use vstd::prelude::*;
use vstd::utf8::{
    char_is_scalar, decode_utf8, decode_utf8_encode_utf8, encode_scalar, encode_utf8,
    encode_utf8_decode_utf8, encode_utf8_valid_utf8,
    last_continuation_byte, leading_byte_width_1, leading_byte_width_2, leading_byte_width_3,
    leading_byte_width_4, second_last_continuation_byte, third_last_continuation_byte, valid_utf8,
};

use crate::text::{no_nul, no_nul_means_no_nul, CText};

verus! {

/// The C string that starts at the first byte of `memory`: the bytes before the first NUL.
pub open spec fn c_bytes(memory: Seq<u8>) -> Seq<u8>
    decreases memory.len(),
{
    if memory.len() == 0 || memory[0] == 0 {
        Seq::empty()
    } else {
        seq![memory[0]] + c_bytes(memory.drop_first())
    }
}

/// The text of the C string at `memory`, if it is UTF-8.
pub open spec fn c_text(memory: Seq<u8>) -> Option<Seq<char>> {
    if valid_utf8(c_bytes(memory)) {
        Some(decode_utf8(c_bytes(memory)))
    } else {
        None
    }
}

/// The texts of the C strings `entries` that are UTF-8, in their order.
pub open spec fn c_texts(entries: Seq<Seq<u8>>) -> Seq<Seq<char>>
    decreases entries.len(),
{
    if entries.len() == 0 {
        Seq::empty()
    } else {
        match c_text(entries.last()) {
            Some(text) => c_texts(entries.drop_last()).push(text),
            None => c_texts(entries.drop_last()),
        }
    }
}

/// The texts of a list.
pub open spec fn texts_of(list: Seq<CText>) -> Seq<Seq<char>> {
    list.map_values(|text: CText| text@)
}

/// The UTF-8 encodings of `texts`.
pub open spec fn utf8_of(texts: Seq<Seq<char>>) -> Seq<Seq<u8>> {
    texts.map_values(|text: Seq<char>| encode_utf8(text))
}

/// Whether `bytes` hold no NUL.
pub open spec fn no_zero(bytes: Seq<u8>) -> bool {
    forall|i: int| 0 <= i < bytes.len() ==> #[trigger] bytes[i] != 0
}

proof fn c_bytes_take(memory: Seq<u8>, end: int)
    requires
        0 <= end <= memory.len(),
        forall|i: int| 0 <= i < end ==> #[trigger] memory[i] != 0,
        end < memory.len() ==> memory[end] == 0,
    ensures
        c_bytes(memory) == memory.take(end),
    decreases end,
{
    if end > 0 {
        let rest = memory.drop_first();
        assert forall|i: int| 0 <= i < end - 1 implies #[trigger] rest[i] != 0 by {
            assert(memory[i + 1] != 0);
        }
        c_bytes_take(rest, end - 1);
        assert(memory.take(end) =~= seq![memory[0]] + rest.take(end - 1));
    } else {
        assert(memory.take(end) =~= Seq::<u8>::empty());
    }
}

proof fn nonzero_bytes_no_nul(chars: Seq<char>)
    requires
        no_zero(encode_utf8(chars)),
    ensures
        no_nul(chars),
    decreases chars.len(),
{
    if chars.len() > 0 {
        let head = encode_scalar(chars[0] as u32);
        let rest = encode_utf8(chars.drop_first());
        assert(encode_utf8(chars) == head + rest);
        assert forall|i: int| 0 <= i < rest.len() implies #[trigger] rest[i] != 0 by {
            assert(encode_utf8(chars)[head.len() + i] == rest[i]);
        }
        nonzero_bytes_no_nul(chars.drop_first());
        if chars[0] == '\0' {
            assert(leading_byte_width_1(0) == 0) by (bit_vector);
            assert(encode_utf8(chars)[0] == 0);
        }
        assert forall|i: int| 0 <= i < chars.len() implies #[trigger] chars[i] != '\0' by {
            if i > 0 {
                assert(chars.drop_first()[i - 1] == chars[i]);
            }
        }
    }
}

proof fn scalar_bytes_nonzero(c: u32)
    by (bit_vector)
    requires
        0 < c <= 0x10ffff,
    ensures
        c <= 0x7f ==> leading_byte_width_1(c) != 0,
        leading_byte_width_2(c) != 0,
        leading_byte_width_3(c) != 0,
        leading_byte_width_4(c) != 0,
        last_continuation_byte(c) != 0,
        second_last_continuation_byte(c) != 0,
        third_last_continuation_byte(c) != 0,
{
}

proof fn char_code_nonzero(c: char)
    requires
        c != '\0',
    ensures
        c as u32 != 0,
{
}

/// Text without NUL has no zero byte in its UTF-8 encoding.
pub proof fn no_nul_nonzero_bytes(chars: Seq<char>)
    requires
        no_nul(chars),
    ensures
        no_zero(encode_utf8(chars)),
    decreases chars.len(),
{
    if chars.len() > 0 {
        let c = chars[0] as u32;
        let head = encode_scalar(c);
        let tail = chars.drop_first();
        let rest = encode_utf8(tail);
        assert(chars[0] != '\0');
        char_is_scalar(chars[0]);
        char_code_nonzero(chars[0]);
        scalar_bytes_nonzero(c);
        assert forall|i: int| 0 <= i < tail.len() implies #[trigger] tail[i] != '\0' by {
            assert(chars[i + 1] != '\0');
        }
        no_nul_nonzero_bytes(tail);
        assert forall|i: int| 0 <= i < encode_utf8(chars).len() implies #[trigger] encode_utf8(
            chars,
        )[i] != 0 by {
            if i < head.len() {
                assert(encode_utf8(chars)[i] == head[i]);
            } else {
                assert(encode_utf8(chars)[i] == rest[i - head.len()]);
            }
        }
    }
}

/// Decodes `bytes` with `String::from_utf8` of std: the text that they encode, or nothing where
/// they are not UTF-8.
#[verifier::external_body]
fn utf8_text(bytes: Vec<u8>) -> (text: Option<String>)
    ensures
        match text {
            Some(text) => valid_utf8(bytes@) && text@ == decode_utf8(bytes@),
            None => !valid_utf8(bytes@),
        },
{
    String::from_utf8(bytes).ok()
}

/// The text of the C string at `memory`, if it is UTF-8.
fn read_c_string(memory: &Vec<u8>) -> (text: Option<CText>)
    ensures
        match text {
            Some(text) => c_text(memory@) == Some(text@),
            None => c_text(memory@) is None,
        },
{
    let mut bytes: Vec<u8> = Vec::new();
    let mut end: usize = 0;
    while end < memory.len() && memory[end] != 0
        invariant
            end <= memory@.len(),
            bytes@ == memory@.take(end as int),
            forall|i: int| 0 <= i < end ==> #[trigger] memory@[i] != 0,
        decreases memory@.len() - end,
    {
        bytes.push(memory[end]);
        assert(memory@.take(end + 1) =~= memory@.take(end as int).push(memory@[end as int]));
        end += 1;
    }
    proof {
        c_bytes_take(memory@, end as int);
        if valid_utf8(bytes@) {
            decode_utf8_encode_utf8(bytes@);
            assert(no_zero(bytes@));
            nonzero_bytes_no_nul(decode_utf8(bytes@));
        }
    }
    match utf8_text(bytes) {
        Some(text) => match CText::new(text) {
            Ok(text) => Some(text),
            Err(_) => None,
        },
        None => None,
    }
}

/// The text of the C string that a pointer leads to: nothing for a null pointer, nor for bytes
/// that are not UTF-8.
pub fn c_char_ptr_to_str(ptr: Option<&Vec<u8>>) -> (text: Option<CText>)
    ensures
        match ptr {
            Some(memory) => match text {
                Some(text) => c_text(memory@) == Some(text@),
                None => c_text(memory@) is None,
            },
            None => text is None,
        },
{
    match ptr {
        Some(memory) => read_c_string(memory),
        None => None,
    }
}

/// The texts of the C strings before the null pointer that ends an array. Strings that are not
/// UTF-8 are left out; a null array has no texts.
pub fn c_char_array_to_vec(array: Option<&Vec<Vec<u8>>>) -> (texts: Vec<CText>)
    ensures
        texts_of(texts@) == match array {
            Some(entries) => c_texts(entries.deep_view()),
            None => Seq::empty(),
        },
{
    let mut texts: Vec<CText> = Vec::new();
    let entries: &Vec<Vec<u8>> = match array {
        Some(entries) => entries,
        None => {
            assert(texts_of(texts@) =~= Seq::<Seq<char>>::empty());
            return texts;
        },
    };
    let ghost all = entries.deep_view();
    let mut i: usize = 0;
    assert(texts_of(texts@) =~= c_texts(all.take(0)));
    while i < entries.len()
        invariant
            i <= entries@.len(),
            all == entries.deep_view(),
            all.len() == entries@.len(),
            texts_of(texts@) == c_texts(all.take(i as int)),
        decreases entries@.len() - i,
    {
        let entry: Option<CText> = read_c_string(&entries[i]);
        proof {
            assert(all.take(i + 1).drop_last() =~= all.take(i as int));
            assert(all.take(i + 1).last() == entries@[i as int]@);
        }
        if let Some(text) = entry {
            let ghost before = texts@;
            texts.push(text);
            assert(texts_of(texts@) =~= texts_of(before).push(text@));
        }
        i += 1;
    }
    assert(all.take(all.len() as int) =~= all);
    texts
}

/// The same for an array that the caller may not write to.
pub fn c_strings_to_vec_null_terminated(c_strings: Option<&Vec<Vec<u8>>>) -> (texts: Vec<CText>)
    ensures
        texts_of(texts@) == match c_strings {
            Some(entries) => c_texts(entries.deep_view()),
            None => Seq::empty(),
        },
{
    c_char_array_to_vec(c_strings)
}

/// One line of a listing of an array: the entry's text, or nothing where it is not UTF-8.
pub struct ItemLine {
    pub index: usize,
    pub text: Option<CText>,
}

/// The lines of a listing of `array`, one for each entry, or nothing for a null array.
pub fn c_char_array_lines(array: Option<&Vec<Vec<u8>>>) -> (lines: Option<Vec<ItemLine>>)
    ensures
        match array {
            Some(entries) => {
                &&& lines matches Some(lines)
                &&& lines@.len() == entries@.len()
                &&& forall|i: int|
                    0 <= i < lines@.len() ==> {
                        &&& (#[trigger] lines@[i]).index == i
                        &&& match lines@[i].text {
                            Some(text) => c_text(entries@[i]@) == Some(text@),
                            None => c_text(entries@[i]@) is None,
                        }
                    }
            },
            None => lines is None,
        },
{
    let entries: &Vec<Vec<u8>> = match array {
        Some(entries) => entries,
        None => return None,
    };
    let mut lines: Vec<ItemLine> = Vec::new();
    let mut i: usize = 0;
    while i < entries.len()
        invariant
            i <= entries@.len(),
            lines@.len() == i,
            forall|j: int|
                0 <= j < i ==> {
                    &&& (#[trigger] lines@[j]).index == j
                    &&& match lines@[j].text {
                        Some(text) => c_text(entries@[j]@) == Some(text@),
                        None => c_text(entries@[j]@) is None,
                    }
                },
        decreases entries@.len() - i,
    {
        lines.push(ItemLine { index: i, text: read_c_string(&entries[i]) });
        i += 1;
    }
    Some(lines)
}

/// C strings and the null-terminated table of pointers to them. A pointer is the position of the
/// string that it leads to; the null pointer is `None`.
pub struct OurCStringArray {
    cstrings: Vec<Vec<u8>>,
    ptrs: Vec<Option<usize>>,
}

impl View for OurCStringArray {
    type V = Seq<Seq<u8>>;

    /// The bytes of each string, without the NUL that ends it.
    closed spec fn view(&self) -> Seq<Seq<u8>> {
        self.cstrings.deep_view().map_values(|buffer: Seq<u8>| buffer.drop_last())
    }
}

impl OurCStringArray {
    #[verifier::type_invariant]
    spec fn inv(&self) -> bool {
        &&& forall|i: int|
            0 <= i < self.cstrings@.len() ==> {
                &&& (#[trigger] self.cstrings@[i])@.len() > 0
                &&& self.cstrings@[i]@.last() == 0
                &&& no_zero(self.cstrings@[i]@.drop_last())
            }
        &&& self.ptrs@.len() == self.cstrings@.len() + 1
        &&& forall|i: int|
            0 <= i < self.cstrings@.len() ==> #[trigger] self.ptrs@[i] == Some(i as usize)
        &&& self.ptrs@.last() is None
    }

    /// Ends each of `strings` with a NUL and points to it; no string may hold a NUL itself.
    pub fn from_vec(strings: Vec<Vec<u8>>) -> (array: OurCStringArray)
        requires
            forall|i: int| 0 <= i < strings@.len() ==> no_zero(#[trigger] strings@[i]@),
        ensures
            array@ == strings.deep_view(),
    {
        let mut cstrings: Vec<Vec<u8>> = Vec::new();
        let mut ptrs: Vec<Option<usize>> = Vec::new();
        let mut i: usize = 0;
        while i < strings.len()
            invariant
                i <= strings@.len(),
                cstrings@.len() == i,
                ptrs@.len() == i,
                forall|j: int| 0 <= j < strings@.len() ==> no_zero(#[trigger] strings@[j]@),
                forall|j: int| 0 <= j < i ==> (#[trigger] cstrings@[j])@ == strings@[j]@.push(0),
                forall|j: int| 0 <= j < i ==> #[trigger] ptrs@[j] == Some(j as usize),
            decreases strings@.len() - i,
        {
            let mut buffer: Vec<u8> = strings[i].clone();
            assert(buffer@ =~= strings@[i as int]@);
            buffer.push(0);
            cstrings.push(buffer);
            ptrs.push(Some(i));
            i += 1;
        }
        ptrs.push(None);
        proof {
            assert forall|j: int| 0 <= j < cstrings@.len() implies {
                &&& (#[trigger] cstrings@[j])@.len() > 0
                &&& cstrings@[j]@.last() == 0
                &&& no_zero(cstrings@[j]@.drop_last())
            } by {
                assert(cstrings@[j]@.drop_last() =~= strings@[j]@);
            }
        }
        let array = OurCStringArray { cstrings, ptrs };
        proof {
            assert(array@.len() == strings.deep_view().len());
            assert forall|j: int| 0 <= j < array@.len() implies array@[j]
                == strings.deep_view()[j] by {
                assert(array.cstrings@[j]@ == strings@[j]@.push(0));
                assert(array.cstrings@[j]@.drop_last() =~= strings@[j]@);
            }
            assert(array@ =~= strings.deep_view());
        }
        array
    }

    /// The table of pointers: one to each string in turn, and the null pointer.
    pub fn as_ptr(&self) -> (ptrs: &Vec<Option<usize>>)
        ensures
            ptrs@.len() == self@.len() + 1,
            forall|i: int| 0 <= i < self@.len() ==> #[trigger] ptrs@[i] == Some(i as usize),
            ptrs@.last() is None,
    {
        proof {
            use_type_invariant(self);
        }
        &self.ptrs
    }

    /// The string at `index`, with the one NUL that ends it.
    pub fn cstring(&self, index: usize) -> (buffer: &Vec<u8>)
        requires
            index < self@.len(),
        ensures
            buffer@ == self@[index as int].push(0),
            no_zero(self@[index as int]),
    {
        proof {
            use_type_invariant(self);
            assert(self@[index as int] == self.cstrings@[index as int]@.drop_last());
            assert(self.cstrings@[index as int]@ =~= self@[index as int].push(0));
        }
        &self.cstrings[index]
    }
}

/// The array of the UTF-8 encodings of `texts`, none of which may hold a NUL.
pub fn c_string_array(texts: &Vec<String>) -> (array: OurCStringArray)
    requires
        forall|i: int| 0 <= i < texts@.len() ==> no_nul(#[trigger] texts@[i]@),
    ensures
        array@ == utf8_of(texts.deep_view()),
{
    let mut strings: Vec<Vec<u8>> = Vec::new();
    let mut i: usize = 0;
    while i < texts.len()
        invariant
            i <= texts@.len(),
            strings@.len() == i,
            forall|j: int| 0 <= j < texts@.len() ==> no_nul(#[trigger] texts@[j]@),
            forall|j: int|
                0 <= j < i ==> (#[trigger] strings@[j])@ == encode_utf8(texts@[j]@) && no_zero(
                    strings@[j]@,
                ),
        decreases texts@.len() - i,
    {
        proof {
            no_nul_nonzero_bytes(texts@[i as int]@);
        }
        strings.push(texts[i].as_str().as_bytes_vec());
        i += 1;
    }
    proof {
        let encoded = utf8_of(texts.deep_view());
        assert forall|j: int| 0 <= j < encoded.len() implies strings.deep_view()[j]
            == encoded[j] by {
            assert(strings@[j]@ == encode_utf8(texts@[j]@));
        }
        assert(strings.deep_view() =~= encoded);
    }
    OurCStringArray::from_vec(strings)
}

/// Reading a C string gives back the text that was written.
pub proof fn read_undoes_write(text: Seq<char>)
    requires
        no_nul(text),
    ensures
        c_text(encode_utf8(text).push(0)) == Some(text),
{
    let bytes = encode_utf8(text);
    let memory = bytes.push(0);
    no_nul_nonzero_bytes(text);
    assert forall|i: int| 0 <= i < bytes.len() implies #[trigger] memory[i] != 0 by {
        assert(bytes[i] != 0);
    }
    c_bytes_take(memory, bytes.len() as int);
    assert(memory.take(bytes.len() as int) =~= bytes);
    encode_utf8_valid_utf8(text);
    encode_utf8_decode_utf8(text);
}

/// Reading an array of C strings gives back the texts that were written to it.
pub proof fn read_undoes_write_array(texts: Seq<Seq<char>>)
    requires
        forall|i: int| 0 <= i < texts.len() ==> no_nul(#[trigger] texts[i]),
    ensures
        c_texts(utf8_of(texts).map_values(|bytes: Seq<u8>| bytes.push(0))) == texts,
    decreases texts.len(),
{
    let terminated = utf8_of(texts).map_values(|bytes: Seq<u8>| bytes.push(0));
    if texts.len() > 0 {
        let rest = texts.drop_last();
        assert forall|i: int| 0 <= i < rest.len() implies no_nul(#[trigger] rest[i]) by {
            assert(no_nul(texts[i]));
        }
        read_undoes_write_array(rest);
        read_undoes_write(texts.last());
        assert(terminated.drop_last() =~= utf8_of(rest).map_values(
            |bytes: Seq<u8>| bytes.push(0),
        ));
        assert(rest.push(texts.last()) =~= texts);
    } else {
        assert(texts =~= Seq::<Seq<char>>::empty());
    }
}

/// What follows the NUL that ends a C string does not matter: the text before it is read.
pub proof fn text_ends_at_the_nul(text: Seq<char>, rest: Seq<u8>)
    requires
        !text.contains('\0'),
    ensures
        c_text(encode_utf8(text) + seq![0u8] + rest) == Some(text),
{
    let bytes = encode_utf8(text);
    let memory = bytes + seq![0u8] + rest;
    no_nul_means_no_nul(text);
    no_nul_nonzero_bytes(text);
    assert forall|i: int| 0 <= i < bytes.len() implies #[trigger] memory[i] != 0 by {
        assert(bytes[i] != 0);
    }
    assert(memory[bytes.len() as int] == 0);
    c_bytes_take(memory, bytes.len() as int);
    assert(memory.take(bytes.len() as int) =~= bytes);
    encode_utf8_valid_utf8(text);
    encode_utf8_decode_utf8(text);
}

proof fn c_bytes_begin_the_memory(memory: Seq<u8>)
    ensures
        c_bytes(memory).len() <= memory.len(),
        memory.take(c_bytes(memory).len() as int) == c_bytes(memory),
        c_bytes(memory).len() < memory.len() ==> memory[c_bytes(memory).len() as int] == 0,
        !c_bytes(memory).contains(0u8),
    decreases memory.len(),
{
    let bytes = c_bytes(memory);
    if memory.len() == 0 || memory[0] == 0 {
        assert(memory.take(0) =~= bytes);
    } else {
        let rest = memory.drop_first();
        c_bytes_begin_the_memory(rest);
        assert(memory.take(bytes.len() as int) =~= seq![memory[0]] + rest.take(
            c_bytes(rest).len() as int,
        ));
        if bytes.contains(0u8) {
            let i = choose|i: int| 0 <= i < bytes.len() && bytes[i] == 0;
            assert(c_bytes(rest)[i - 1] == 0);
        }
    }
}

/// A text that is read stands at the start of the memory, in UTF-8, and ends with it or with a NUL.
pub proof fn read_text_stands_in_memory(memory: Seq<u8>)
    requires
        c_text(memory) is Some,
    ensures
        ({
            let bytes = encode_utf8(c_text(memory)->0);
            &&& bytes.is_prefix_of(memory)
            &&& !bytes.contains(0u8)
            &&& bytes.len() < memory.len() ==> memory[bytes.len() as int] == 0
        }),
{
    let bytes = c_bytes(memory);
    c_bytes_begin_the_memory(memory);
    decode_utf8_encode_utf8(bytes);
    assert(memory.subrange(0, bytes.len() as int) =~= memory.take(bytes.len() as int));
}

/// A further C string adds its text at the end, or nothing where it has none.
pub proof fn texts_are_read_one_by_one(entries: Seq<Seq<u8>>, entry: Seq<u8>)
    ensures
        c_text(entry) matches Some(text) ==> c_texts(entries.push(entry)) == c_texts(entries).push(
            text,
        ),
        c_text(entry) is None ==> c_texts(entries.push(entry)) == c_texts(entries),
        c_texts(Seq::empty()).len() == 0,
{
    assert(entries.push(entry).drop_last() =~= entries);
}

/// Lists of texts and their encodings hold one item for each text, in the same order.
pub proof fn lists_go_one_by_one(list: Seq<CText>, texts: Seq<Seq<char>>, bytes: Seq<u8>)
    ensures
        texts_of(list).len() == list.len(),
        forall|i: int| 0 <= i < list.len() ==> #[trigger] texts_of(list)[i] == list[i]@,
        utf8_of(texts).len() == texts.len(),
        forall|i: int|
            0 <= i < texts.len() ==> #[trigger] utf8_of(texts)[i] == encode_utf8(texts[i]),
        no_zero(bytes) <==> !bytes.contains(0u8),
{
    if !no_zero(bytes) {
        let i = choose|i: int| 0 <= i < bytes.len() && bytes[i] == 0;
        assert(bytes[i] == 0);
    }
}

} // verus!
