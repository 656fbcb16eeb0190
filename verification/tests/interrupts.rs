use agnostos::interrupts::{
    acknowledge_ports, master_irq_mask, pic_initialization, pit_initialization, ps2_has_output, ps2_ready_for_write,
    slave_irq_mask, vector_for, Irq, MASTER_COMMAND, SLAVE_COMMAND,
};

#[test]
fn legacy_vectors_are_stable_for_installed_irqs() {
    assert_eq!(vector_for(Irq::Timer), 32);
    assert_eq!(vector_for(Irq::Keyboard), 33);
    assert_eq!(vector_for(Irq::Mouse), 44);
}

#[test]
fn acknowledgements_reach_the_controllers_that_raised_the_irq() {
    assert_eq!(acknowledge_ports(Irq::Timer), vec![MASTER_COMMAND]);
    assert_eq!(acknowledge_ports(Irq::Keyboard), vec![MASTER_COMMAND]);
    assert_eq!(acknowledge_ports(Irq::Mouse), vec![SLAVE_COMMAND, MASTER_COMMAND]);
}

#[test]
fn masks_unmask_timer_keyboard_and_optionally_the_mouse() {
    assert_eq!(master_irq_mask(false), 0b1111_1100);
    assert_eq!(master_irq_mask(true), 0b1111_1000);
    assert_eq!(slave_irq_mask(false), 0xff);
    assert_eq!(slave_irq_mask(true), 0b1110_1111);
    let writes = pic_initialization(true);
    assert_eq!(writes.first(), Some(&(0x11, 0x20)));
    assert_eq!(writes.last(), Some(&(0b1110_1111, 0xa1)));
}

#[test]
fn the_timer_is_programmed_for_a_millisecond_tick() {
    assert_eq!(pit_initialization(), vec![(0x36, 0x43), (169, 0x40), (4, 0x40)]);
}

#[test]
fn ps2_status_bits_are_read_correctly() {
    assert!(ps2_ready_for_write(0b01));
    assert!(!ps2_ready_for_write(0b10));
    assert!(ps2_has_output(0b01));
    assert!(!ps2_has_output(0b10));
}
