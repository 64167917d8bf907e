use bgp_rs::update::flowspec::{find_length, is_end_of_list, OperatorText};
use bgp_rs::{BinaryOperator, FragmentOperator, NumericOperator};

#[test]
fn test_flowspec_operator() {
    assert!(is_end_of_list(0x81));
    assert!(!is_end_of_list(0x06));

    assert_eq!(find_length(0b0000_0000), 1);
    assert_eq!(find_length(0b0000_1111), 1);
    assert_eq!(find_length(0b0001_0000), 2);
    assert_eq!(find_length(0b0010_0000), 4);
    assert_eq!(find_length(0b0011_0000), 8);
}

#[test]
fn test_flowspec_operator_length() {
    assert_eq!(find_length(0b0000_0000), 1);
    assert_eq!(find_length(0b0000_1111), 1);
    assert_eq!(find_length(0b0001_0000), 2);
    assert_eq!(find_length(0b0010_0000), 4);
    assert_eq!(find_length(0b0011_0000), 8);
}

#[test]
fn test_flowspec_operator_sign() {
    assert_eq!(
        NumericOperator::new(NumericOperator::LT | NumericOperator::EQ).to_string(),
        "<="
    );
}

#[test]
fn test_flowspec_numeric_operator_bits() {
    let mut eol = NumericOperator::new(0x81);
    assert!(is_end_of_list(eol.bits()));
    eol.unset_eol();
    assert!(!is_end_of_list(eol.bits()));
    assert_eq!(&eol.to_string(), &"=");

    let mut not_eol = NumericOperator::new(0x06);
    assert!(!is_end_of_list(not_eol.bits()));
    not_eol.set_eol();
    assert!(is_end_of_list(not_eol.bits()));
    assert_eq!(&not_eol.to_string(), &"<");

    let mut oper = NumericOperator::new(NumericOperator::EQ);
    oper.set_length(1);
    assert_eq!(find_length(oper.bits()), 1);
    oper.set_length(2);
    assert_eq!(find_length(oper.bits()), 2);
    oper.set_length(4);
    assert_eq!(find_length(oper.bits()), 4);
    oper.set_length(8);
    assert_eq!(find_length(oper.bits()), 8);
    assert_eq!(&oper.to_string(), &"=");

    let oper = NumericOperator::new(NumericOperator::AND);
    assert_eq!(&oper.to_string(), &"&& ");
}

#[test]
fn test_flowspec_binary_operator_bits() {
    let mut oper = BinaryOperator::new(BinaryOperator::MATCH);
    oper.set_length(2);
    assert_eq!(oper.bits() & BinaryOperator::V2, BinaryOperator::V2);
    assert_eq!(&oper.to_string(), "=")
}

#[test]
fn numeric_operator_keeps_other_bits_when_length_changes() {
    let mut oper = NumericOperator::new(0xc7);
    oper.set_length(8);
    assert_eq!(oper.bits(), 0xf7);
    oper.set_length(1);
    assert_eq!(oper.bits(), 0xc7);
    oper.set_length(2);
    assert_eq!(oper.bits(), 0xd7);
    oper.set_length(4);
    assert_eq!(oper.bits(), 0xe7);
    assert!(oper.contains(NumericOperator::V4));
    assert!(!oper.contains(NumericOperator::V8));
}

#[test]
fn binary_operator_length_flag() {
    let mut oper = BinaryOperator::new(0x93);
    oper.set_length(1);
    assert_eq!(oper.bits(), 0x83);
    oper.set_length(2);
    assert_eq!(oper.bits(), 0x93);
    oper.unset_eol();
    assert_eq!(oper.bits(), 0x13);
    oper.set_eol();
    assert_eq!(oper.bits(), 0x93);
    assert_eq!(BinaryOperator::new(BinaryOperator::NOT | BinaryOperator::AND).to_string(), "&& !");
}

#[test]
fn fragment_operator_names() {
    assert_eq!(FragmentOperator::new(FragmentOperator::DF).to_string(), "Do-Not-Frag ");
    assert_eq!(FragmentOperator::new(FragmentOperator::IF).to_string(), "Is Frag");
    assert_eq!(FragmentOperator::new(FragmentOperator::FF).to_string(), "First ");
    assert_eq!(FragmentOperator::new(FragmentOperator::LF).to_string(), "Last ");
    assert_eq!(FragmentOperator::new(FragmentOperator::EOL).to_string(), "");
    let mut oper = FragmentOperator::new(0x02);
    oper.set_eol();
    assert_eq!(oper.bits(), 0x82);
    oper.unset_eol();
    assert_eq!(oper.bits(), 0x02);
}
