use jcamp_rs::{parse_paravision_params, PvAtom, PvError, PvParams, PvValue};

fn read(text: &str) -> PvParams {
    match parse_paravision_params(text) {
        Ok(p) => p,
        Err(e) => panic!("unexpected error: {:?}", e),
    }
}

fn text_atom(s: &str) -> PvAtom {
    PvAtom::Text(s.to_string())
}

fn float_atom(s: &str) -> PvAtom {
    PvAtom::Float(s.to_string())
}

#[test]
fn scalar_parameter() {
    let pv = read("##$NR=16\n");
    assert_eq!(pv.params.get("NR"), Some(&PvValue::Scalar(PvAtom::Int(16))));
    assert_eq!(pv.params.len(), 1);
    assert_eq!(pv.meta.len(), 0);
}

#[test]
fn array_on_one_line() {
    let pv = read("##$ACQ_size=( 2 )\n128 2\n");
    assert_eq!(
        pv.params.get("ACQ_size"),
        Some(&PvValue::Array { dims: vec![2], items: vec![PvAtom::Int(128), PvAtom::Int(2)] })
    );
}

#[test]
fn array_of_booleans_counts_receivers() {
    let pv = read("##$ACQ_ReceiverSelect=( 4 )\nYes No Yes No\n");
    let value = pv.params.get("ACQ_ReceiverSelect").unwrap();
    assert_eq!(
        value,
        &PvValue::Array {
            dims: vec![4],
            items: vec![
                PvAtom::Bool(true),
                PvAtom::Bool(false),
                PvAtom::Bool(true),
                PvAtom::Bool(false)
            ],
        }
    );
    let flags = value.to_vec_bool().unwrap();
    assert_eq!(flags, vec![true, false, true, false]);
    assert_eq!(flags.iter().filter(|b| **b).count(), 2);
}

#[test]
fn meta_record_keeps_text_and_upper_cases_key() {
    let pv = read("##TITLE=My Scan\n");
    assert_eq!(pv.meta.get("TITLE"), Some(&"My Scan".to_string()));
    let pv = read("##title=  Parameter List, ParaVision 6.0.1 \r\n");
    assert_eq!(pv.meta.get("TITLE"), Some(&"Parameter List, ParaVision 6.0.1".to_string()));
    assert_eq!(pv.meta.get("title"), None);
    assert_eq!(pv.params.len(), 0);
}

#[test]
fn parameter_keys_keep_their_case() {
    let pv = read("##$Acq_Dim=2\n##$ACQ_DIM=3\n");
    assert_eq!(pv.params.get("Acq_Dim"), Some(&PvValue::Scalar(PvAtom::Int(2))));
    assert_eq!(pv.params.get("ACQ_DIM"), Some(&PvValue::Scalar(PvAtom::Int(3))));
    assert_eq!(pv.params.get("acq_dim"), None);
}

#[test]
fn scalars_of_every_kind() {
    let pv = read(
        "##$A=Yes\n##$B=false\n##$C=-12\n##$D=1.5e3\n##$E=ParallelExperiment\n##$F=\n##$G= 7 \n",
    );
    assert_eq!(pv.params.get("A"), Some(&PvValue::Scalar(PvAtom::Bool(true))));
    assert_eq!(pv.params.get("B"), Some(&PvValue::Scalar(PvAtom::Bool(false))));
    assert_eq!(pv.params.get("C"), Some(&PvValue::Scalar(PvAtom::Int(-12))));
    assert_eq!(pv.params.get("D"), Some(&PvValue::Scalar(float_atom("1.5e3"))));
    assert_eq!(pv.params.get("E"), Some(&PvValue::Scalar(text_atom("ParallelExperiment"))));
    assert_eq!(pv.params.get("F"), Some(&PvValue::Scalar(text_atom(""))));
    assert_eq!(pv.params.get("G"), Some(&PvValue::Scalar(PvAtom::Int(7))));
}

#[test]
fn bracketed_string_takes_exactly_one_line() {
    let pv = read("##$ACQ_scan_name=( 64 )\n<1_Localizer (E1)>\n##$NR=3\n");
    assert_eq!(
        pv.params.get("ACQ_scan_name"),
        Some(&PvValue::Str("1_Localizer (E1)".to_string()))
    );
    assert_eq!(pv.params.get("NR"), Some(&PvValue::Scalar(PvAtom::Int(3))));
}

#[test]
fn bracketed_string_may_be_empty_or_hold_brackets() {
    let pv = read("##$A=( 8 )\n<>\n##$B=( 8 )\n  <a> <b>  \n");
    assert_eq!(pv.params.get("A"), Some(&PvValue::Str(String::new())));
    assert_eq!(pv.params.get("B"), Some(&PvValue::Str("a> <b".to_string())));
}

#[test]
fn array_over_several_lines() {
    let pv = read("##$M=( 2, 3 )\n1 2\n3\n\n4 5 6\n##$NEXT=1\n");
    assert_eq!(
        pv.params.get("M"),
        Some(&PvValue::Array {
            dims: vec![2, 3],
            items: (1..=6).map(PvAtom::Int).collect(),
        })
    );
    assert_eq!(pv.params.get("NEXT"), Some(&PvValue::Scalar(PvAtom::Int(1))));
}

#[test]
fn every_split_of_the_tokens_gives_the_same_array() {
    let header = "##$M=( 2, 3 )\n";
    let splits = [
        "1 2 3 4 5 6\n",
        "1\n2\n3\n4\n5\n6\n",
        "1 2 3\n4 5 6\n",
        "1 2 3 4 5\n6\n",
        "1\n\n\n2 3 4 5\n   \n6",
        "\t1  2\r\n 3 4\r\n5 6\r\n\r\n",
        "1 2\n3 4\n5 6\n\n\n",
    ];
    let expected = PvValue::Array { dims: vec![2, 3], items: (1..=6).map(PvAtom::Int).collect() };
    let first = read(&format!("{}{}", header, splits[0]));
    for split in splits.iter() {
        let pv = read(&format!("{}{}", header, split));
        assert_eq!(pv.params.get("M"), Some(&expected));
        assert_eq!(pv, first);
    }
}

#[test]
fn mixed_atoms_in_an_array() {
    let pv = read("##$X=( 5 )\nyes 3 2.5 abc -7\n");
    assert_eq!(
        pv.params.get("X"),
        Some(&PvValue::Array {
            dims: vec![5],
            items: vec![
                PvAtom::Bool(true),
                PvAtom::Int(3),
                float_atom("2.5"),
                text_atom("abc"),
                PvAtom::Int(-7)
            ],
        })
    );
}

#[test]
fn excess_tokens_on_the_completing_line_are_dropped() {
    let pv = read("##$A=( 3 )\n1 2\n3 4 5\n##$B=9\n");
    assert_eq!(
        pv.params.get("A"),
        Some(&PvValue::Array { dims: vec![3], items: vec![1, 2, 3].into_iter().map(PvAtom::Int).collect() })
    );
    assert_eq!(pv.params.get("B"), Some(&PvValue::Scalar(PvAtom::Int(9))));
    let pv = read("##$A=( 2 )\n1 2 3 4 5 6 7\n");
    assert_eq!(
        pv.params.get("A"),
        Some(&PvValue::Array { dims: vec![2], items: vec![PvAtom::Int(1), PvAtom::Int(2)] })
    );
}

fn incomplete(text: &str) -> (String, Vec<usize>) {
    match parse_paravision_params(text) {
        Err(PvError::Incomplete { key, dims }) => (key, dims),
        other => panic!("expected an incomplete record, got {:?}", other),
    }
}

#[test]
fn end_of_text_after_a_header_is_an_error() {
    assert_eq!(incomplete("##$A=( 2, 2 )\n"), ("A".to_string(), vec![2, 2]));
    assert_eq!(incomplete("##$A=( 2, 2 )"), ("A".to_string(), vec![2, 2]));
    assert_eq!(incomplete("##$OK=1\n##$A=( 3 )\n\n$$ nothing\n   \n"), ("A".to_string(), vec![3]));
}

#[test]
fn end_of_text_inside_an_array_is_an_error() {
    assert_eq!(incomplete("##$A=( 2, 2 )\n1 2 3\n"), ("A".to_string(), vec![2, 2]));
    assert_eq!(incomplete("##TITLE=x\n##$B=( 4 )\n1\n2\n3"), ("B".to_string(), vec![4]));
}

#[test]
fn an_error_hands_out_no_parameters() {
    let r = parse_paravision_params("##$DONE=1\n##$A=( 4 )\n1 2 3\n");
    assert!(matches!(r, Err(PvError::Incomplete { .. })));
}

#[test]
fn blank_lines_and_comments_are_passed_over() {
    let pv = read("\n   \n$$ a comment\n##$A=1\n  $$ another\n\r\n##$B=2\n$$ ##$C=3\n");
    assert_eq!(pv.params.len(), 2);
    assert_eq!(pv.params.get("A"), Some(&PvValue::Scalar(PvAtom::Int(1))));
    assert_eq!(pv.params.get("B"), Some(&PvValue::Scalar(PvAtom::Int(2))));
    assert_eq!(pv.params.get("C"), None);
}

#[test]
fn comments_inside_an_array_are_passed_over() {
    let pv = read("##$A=( 4 )\n1 2\n$$ 99 98\n\n3 4\n");
    assert_eq!(
        pv.params.get("A"),
        Some(&PvValue::Array { dims: vec![4], items: (1..=4).map(PvAtom::Int).collect() })
    );
    let pv = read("##$A=( 4 )\n$$ <not a string>\n1 2 3 4\n");
    assert_eq!(
        pv.params.get("A"),
        Some(&PvValue::Array { dims: vec![4], items: (1..=4).map(PvAtom::Int).collect() })
    );
}

#[test]
fn stray_lines_without_an_open_record_are_ignored() {
    let pv = read("stray text\n1 2 3\n#not a record\n##$A=1\n<x>\n");
    assert_eq!(pv.params.len(), 1);
    assert_eq!(pv.meta.len(), 0);
    assert_eq!(pv.params.get("A"), Some(&PvValue::Scalar(PvAtom::Int(1))));
}

#[test]
fn a_record_line_after_a_header_is_taken_as_data() {
    let pv = read("##$A=( 2 )\n##$B=5 7\n##$C=1\n");
    assert_eq!(
        pv.params.get("A"),
        Some(&PvValue::Array { dims: vec![2], items: vec![text_atom("##$B=5"), PvAtom::Int(7)] })
    );
    assert_eq!(pv.params.get("B"), None);
    assert_eq!(pv.params.get("C"), Some(&PvValue::Scalar(PvAtom::Int(1))));
}

#[test]
fn only_the_first_line_after_a_header_can_be_a_string() {
    let pv = read("##$A=( 3 )\n1\n<x y>\n");
    assert_eq!(
        pv.params.get("A"),
        Some(&PvValue::Array {
            dims: vec![3],
            items: vec![PvAtom::Int(1), text_atom("<x"), text_atom("y>")],
        })
    );
}

#[test]
fn later_records_overwrite_earlier_ones_in_place() {
    let pv = read("##$A=1\n##$B=2\n##$A=( 2 )\n7 8\n##title=x\n##Owner=o\n##TITLE=y\n");
    assert_eq!(pv.params.len(), 2);
    assert_eq!(pv.params.key_at(0), "A");
    assert_eq!(pv.params.key_at(1), "B");
    assert_eq!(
        pv.params.get("A"),
        Some(&PvValue::Array { dims: vec![2], items: vec![PvAtom::Int(7), PvAtom::Int(8)] })
    );
    assert_eq!(pv.meta.len(), 2);
    assert_eq!(pv.meta.key_at(0), "TITLE");
    assert_eq!(pv.meta.value_at(0), "y");
    assert_eq!(pv.meta.key_at(1), "OWNER");
}

#[test]
fn keys_come_in_the_order_in_which_records_complete() {
    let pv = read("##$Z=1\n##$Y=( 2 )\n1 2\n##$X=( 1 )\n<s>\n##$W=w\n");
    let keys: Vec<&str> = (0..pv.params.len()).map(|i| pv.params.key_at(i).as_str()).collect();
    assert_eq!(keys, vec!["Z", "Y", "X", "W"]);
}

#[test]
fn a_shape_with_a_zero_is_complete_with_the_next_line() {
    let pv = read("##$A=( 0 )\nanything at all\n##$B=1\n");
    assert_eq!(pv.params.get("A"), Some(&PvValue::Array { dims: vec![0], items: vec![] }));
    assert_eq!(pv.params.get("B"), Some(&PvValue::Scalar(PvAtom::Int(1))));
    assert_eq!(incomplete("##$A=( 3, 0 )\n\n"), ("A".to_string(), vec![3, 0]));
}

#[test]
fn a_shape_too_large_to_count_is_never_complete() {
    let text = "##$A=( 4294967296, 4294967296, 4294967296 )\n1 2 3\n";
    assert_eq!(
        incomplete(text),
        ("A".to_string(), vec![4294967296, 4294967296, 4294967296])
    );
}

#[test]
fn a_value_that_is_no_shape_is_a_scalar() {
    let pv = read("##$A=( 1, x )\n##$B=()\n##$C=(2\n##$D=( -1 )\n##$E=( 99999999999999999999 )\n");
    assert_eq!(pv.params.get("A"), Some(&PvValue::Scalar(text_atom("( 1, x )"))));
    assert_eq!(pv.params.get("B"), Some(&PvValue::Scalar(text_atom("()"))));
    assert_eq!(pv.params.get("C"), Some(&PvValue::Scalar(text_atom("(2"))));
    assert_eq!(pv.params.get("D"), Some(&PvValue::Scalar(text_atom("( -1 )"))));
    assert_eq!(
        pv.params.get("E"),
        Some(&PvValue::Scalar(text_atom("( 99999999999999999999 )")))
    );
}

#[test]
fn records_without_an_equals_sign() {
    let pv = read("##END\n##$FLAG\n");
    assert_eq!(pv.meta.get("END"), Some(&String::new()));
    assert_eq!(pv.params.get("FLAG"), Some(&PvValue::Scalar(text_atom(""))));
}

#[test]
fn only_the_first_equals_sign_splits() {
    let pv = read("##$A = b=c \n##Origin=x=y\n");
    assert_eq!(pv.params.get("A"), Some(&PvValue::Scalar(text_atom("b=c"))));
    assert_eq!(pv.meta.get("ORIGIN"), Some(&"x=y".to_string()));
}

#[test]
fn the_empty_text_gives_nothing() {
    let pv = read("");
    assert_eq!(pv.params.len(), 0);
    assert_eq!(pv.meta.len(), 0);
    let pv = read("\n\n\r\n");
    assert_eq!(pv.params.len(), 0);
}

#[test]
fn a_small_file() {
    let text = "##TITLE=Parameter List, ParaVision 6.0.1\n\
##JCAMPDX=4.24\n\
##DATATYPE=Parameter Values\n\
$$ 2026-02-09 14:35:22 +0100\n\
##$ACQ_dim=2\n\
##$ACQ_size=( 2 )\n\
128 64\n\
##$ACQ_fov=( 2 )\n\
2.5 2.5\n\
##$ACQ_ReceiverSelect=( 4 )\n\
Yes Yes\n\
No No\n\
##$ACQ_protocol_name=( 64 )\n\
<T1_FLASH>\n\
##$NR=10\n\
##END=\n";
    let pv = read(text);
    assert_eq!(pv.meta.len(), 4);
    assert_eq!(pv.meta.get("JCAMPDX"), Some(&"4.24".to_string()));
    assert_eq!(pv.meta.get("END"), Some(&String::new()));
    assert_eq!(pv.params.len(), 6);
    assert_eq!(pv.params.get("ACQ_size").unwrap().to_vec_usize(), Some(vec![128, 64]));
    assert_eq!(pv.params.get("NR").unwrap().to_usize(), Some(10));
    assert_eq!(
        pv.params.get("ACQ_fov"),
        Some(&PvValue::Array { dims: vec![2], items: vec![float_atom("2.5"), float_atom("2.5")] })
    );
    assert_eq!(pv.params.get("ACQ_protocol_name"), Some(&PvValue::Str("T1_FLASH".to_string())));
    assert_eq!(
        pv.params.get("ACQ_ReceiverSelect").unwrap().to_vec_bool(),
        Some(vec![true, true, false, false])
    );
}
