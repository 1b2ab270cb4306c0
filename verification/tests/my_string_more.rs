use graph_algorithms::MyString;

#[test]
fn main_from_string() {
    let string = String::from("aaa");
    let _ = MyString::from(string);
}

#[test]
fn main_from_str() {
    let str = "aaa";
    let _ = MyString::from(str);
}

#[test]
fn main_from_string_ref() {
    let string = String::from("aaa");
    let _ = MyString::from(&string);
}

#[test]
fn main_from_str_ref() {
    let str = "aaa";
    let _ = MyString::from(&str);
}

#[test]
fn main_eq_self_from_str() {
    let first = MyString::from("aaa");
    let second = MyString::from("aaa");

    assert_eq!(first, second);
}

#[test]
fn main_eq_self_from_ref_to_string() {
    let string = String::from("aaa");
    let first = MyString::from(&string);
    let second = MyString::from(&string);

    assert_eq!(first, second);
}

#[test]
fn main_eq_self_from_str_and_string() {
    let str = "aaa";
    let string = String::from(str);
    let first = MyString::from(str);
    let second = MyString::from(string);

    assert_eq!(first, second);
}

#[test]
fn main_lt_str() {
    let my_string = MyString::from("aaa");
    let str = "bbb";

    assert!(my_string < str);
}

#[test]
fn main_lt_string() {
    let my_string = MyString::from("aaa");
    let string = String::from("bbb");

    assert!(my_string < string);
}

#[test]
fn main_lt_self() {
    let first = MyString::from("aaa");
    let second = MyString::from("bbb");

    assert!(first < second);
}

#[test]
fn main_sort_vector() {
    let mut vector = vec![MyString::from("bbb"), MyString::from("ccc"), MyString::from("aaa")];
    vector.sort();

    let expected = vec![MyString::from("aaa"), MyString::from("bbb"), MyString::from("ccc")];
    assert_eq!(vector, expected);
}

#[test]
fn main_sort_vector_of_refs() {
    let my_string_a = String::from("aaa");
    let my_string_b = String::from("bbb");
    let my_string_c = String::from("ccc");

    let mut vector = vec![&my_string_c, &my_string_a, &my_string_b];
    vector.sort();

    let expected = vec![&my_string_a, &my_string_b, &my_string_c];
    assert_eq!(vector, expected);
}

#[test]
fn main_vector_of_newtypes_from_vector_of_strings() {
    let vec_of_strings = vec![String::from("aaa"), String::from("bbb")];
    let _: Vec<MyString> = vec_of_strings.into_iter().map(MyString::from).collect();
}

#[test]
fn main_vector_of_newtypes_from_vector_of_refs_to_string() {
    let string_a = String::from("aaa");
    let string_b = String::from("bbb");

    let vec_of_refs = vec![&string_a, &string_b];
    let _: Vec<MyString> = vec_of_refs.iter().map(|&e| MyString::from(e)).collect();
}

#[test]
fn main_vector_of_newtypes_from_vector_of_slices() {
    let vec_of_slices = vec!["aaa", "bbb"];
    let _: Vec<MyString> = vec_of_slices.iter().map(|&e| MyString::from(e)).collect();
}

#[test]
fn main_vector_of_newtypes_from_vector_of_refs_to_slices() {
    let vec_of_refs = vec![&"aaa", &"bbb"];
    let _: Vec<MyString> = vec_of_refs.iter().map(|&e| MyString::from(e)).collect();
}

#[test]
fn main_vector_of_newtypes_from_array_of_strs() {
    let array = ["aaa", "bbb", "ccc"];
    let _: Vec<MyString> = array.iter().map(|&e| MyString::from(e)).collect();
}

#[test]
fn main_vector_of_newtypes_from_array_of_refs_to_strings() {
    let string_a = String::from("aaa");
    let string_b = String::from("bbb");

    let array = [&string_a, &string_b];
    let _: Vec<MyString> = array.iter().map(|&e| MyString::from(e)).collect();
}

#[test]
fn main_vector_of_newtypes_from_array_of_refs_to_strs() {
    let str_a = "aaa";
    let str_b = "bbb";

    let array = [&str_a, &str_b];
    let _: Vec<MyString> = array.iter().map(|&e| MyString::from(e)).collect();
}
