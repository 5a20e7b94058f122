use insen_client::ControllerState;

fn with_buttons(buttons: u16) -> ControllerState {
    ControllerState {
        id: 0,
        left_stick_x: 0,
        left_stick_y: 0,
        right_stick_x: 0,
        right_stick_y: 0,
        left_trigger: 0,
        right_trigger: 0,
        buttons,
        dpad: 0,
        battery: 0,
        timestamp: 0,
    }
}

#[test]
fn no_buttons_no_names() {
    assert!(with_buttons(0).get_button_names().is_empty());
}

#[test]
fn each_bit_names_its_button() {
    let names = ["A", "B", "X", "Y", "LB", "RB", "SELECT", "START", "HOME", "LSB", "RSB"];
    for (k, name) in names.iter().enumerate() {
        assert_eq!(with_buttons(1u16 << k).get_button_names(), vec![*name]);
    }
}

#[test]
fn all_named_bits_in_order() {
    assert_eq!(
        with_buttons(0x7FF).get_button_names(),
        vec!["A", "B", "X", "Y", "LB", "RB", "SELECT", "START", "HOME", "LSB", "RSB"]
    );
}

#[test]
fn reserved_bits_are_ignored() {
    assert!(with_buttons(0xF800).get_button_names().is_empty());
    assert_eq!(with_buttons(0xFFFF).get_button_names(), with_buttons(0x7FF).get_button_names());
    assert_eq!(with_buttons(0x0841).get_button_names(), vec!["A", "SELECT"]);
}

#[test]
fn significance_needs_a_pushed_stick_or_a_button() {
    assert!(!with_buttons(0).has_significant_input());
    assert!(with_buttons(0x800).has_significant_input());
    let mut st = with_buttons(0);
    st.left_stick_x = 5000;
    st.right_stick_y = -5000;
    assert!(!st.has_significant_input());
    st.right_stick_y = -5001;
    assert!(st.has_significant_input());
    st.right_stick_y = 0;
    st.left_stick_y = -32768;
    assert!(st.has_significant_input());
}
