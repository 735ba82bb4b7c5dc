use pk_backend_moss::cstrings::{
    c_char_array_lines, c_char_array_to_vec, c_char_ptr_to_str, c_string_array,
    c_strings_to_vec_null_terminated, OurCStringArray,
};
use pk_backend_moss::info::{
    pk_backend_get_author, pk_backend_get_description, pk_backend_get_mime_types,
};
use pk_backend_moss::text::CText;

fn shown(list: &Vec<CText>) -> Vec<&str> {
    list.iter().map(|text| text.as_str()).collect()
}

#[test]
fn c_string_ends_at_its_nul() {
    let text = c_char_ptr_to_str(Some(&b"moss\0rest\0".to_vec())).unwrap();
    assert_eq!(text.as_str(), "moss");
    assert_eq!(c_char_ptr_to_str(Some(&b"\0".to_vec())).unwrap().as_str(), "");
}

#[test]
fn c_string_is_decoded() {
    let bytes: Vec<u8> = vec![0xc3, 0xa4, 0xe2, 0x82, 0xac, 0];
    assert_eq!(c_char_ptr_to_str(Some(&bytes)).unwrap().as_str(), "ä€");
}

#[test]
fn null_and_invalid_strings_have_no_text() {
    assert!(c_char_ptr_to_str(None).is_none());
    assert!(c_char_ptr_to_str(Some(&vec![0xff, 0])).is_none());
    assert!(c_char_ptr_to_str(Some(&vec![0xc3, 0])).is_none());
    // What follows the NUL does not count.
    assert!(c_char_ptr_to_str(Some(&vec![b'a', 0, 0xff])).is_some());
}

#[test]
fn arrays_skip_invalid_strings() {
    let entries: Vec<Vec<u8>> = vec![b"a\0".to_vec(), vec![0xff, 0], b"b\0".to_vec()];
    assert_eq!(shown(&c_char_array_to_vec(Some(&entries))), vec!["a", "b"]);
    assert_eq!(shown(&c_strings_to_vec_null_terminated(Some(&entries))), vec!["a", "b"]);
    assert!(c_char_array_to_vec(None).is_empty());
    assert!(c_strings_to_vec_null_terminated(None).is_empty());
    assert!(c_char_array_to_vec(Some(&Vec::new())).is_empty());
}

#[test]
fn listing_numbers_every_entry() {
    let entries: Vec<Vec<u8>> = vec![b"a\0".to_vec(), vec![0xff, 0], b"b\0".to_vec()];
    let lines = c_char_array_lines(Some(&entries)).unwrap();
    assert_eq!(lines.len(), 3);
    assert_eq!(lines[0].index, 0);
    assert_eq!(lines[0].text.as_ref().unwrap().as_str(), "a");
    assert_eq!(lines[1].index, 1);
    assert!(lines[1].text.is_none());
    assert_eq!(lines[2].index, 2);
    assert_eq!(lines[2].text.as_ref().unwrap().as_str(), "b");
    assert!(c_char_array_lines(None).is_none());
}

#[test]
fn pointer_table_is_null_terminated() {
    let array = OurCStringArray::from_vec(vec![b"one".to_vec(), b"".to_vec(), vec![0xff]]);
    assert_eq!(*array.as_ptr(), vec![Some(0), Some(1), Some(2), None]);
    assert_eq!(*array.cstring(0), b"one\0".to_vec());
    assert_eq!(*array.cstring(1), b"\0".to_vec());
    assert_eq!(*array.cstring(2), vec![0xff, 0]);
    let empty = OurCStringArray::from_vec(Vec::new());
    assert_eq!(*empty.as_ptr(), vec![None]);
}

#[test]
fn reading_an_array_undoes_writing_it() {
    let texts = vec!["/usr/bin/moss".to_string(), "".to_string(), "ä€𝄞".to_string()];
    let array = c_string_array(&texts);
    let written: Vec<Vec<u8>> =
        array.as_ptr().iter().flatten().map(|at| array.cstring(*at).clone()).collect();
    assert_eq!(shown(&c_char_array_to_vec(Some(&written))), vec!["/usr/bin/moss", "", "ä€𝄞"]);
}

#[test]
fn backend_introduces_itself() {
    assert_eq!(pk_backend_get_description(), "Moss - atomic stateful package manager\0");
    assert_eq!(pk_backend_get_author(), "Aeryn OS Developers <copyright@aerynos.com>\0");
    let types = pk_backend_get_mime_types();
    assert_eq!(*types.as_ptr(), vec![Some(0), None]);
    assert_eq!(*types.cstring(0), b"application/x-stone-binary\0".to_vec());
}
