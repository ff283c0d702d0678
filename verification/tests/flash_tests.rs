use loom_storage::error::StorageError;
use loom_storage::flash::{FlashConfig, VirtualFlash};

fn config(enforce: bool) -> FlashConfig {
    FlashConfig { enforce_flash_bits: enforce, durable: false }
}

#[test]
fn fresh_device_is_fully_erased() {
    let flash = VirtualFlash::new(4, 4096, config(false));
    assert_eq!(flash.page_count(), 4);
    assert_eq!(flash.page_size(), 4096);
    assert_eq!(flash.image().len(), 4 * 4096);
    assert!(flash.image().iter().all(|&b| b == 0xFF));
}

#[test]
fn write_then_read_round_trips() {
    let mut flash = VirtualFlash::new(4, 4096, config(false));
    flash.erase(1);
    flash.write(1, 0, b"HELLOWORLD").unwrap();
    let mut buf = vec![0u8; 10];
    flash.read(1, 0, &mut buf);
    assert_eq!(&buf, b"HELLOWORLD");
}

#[test]
fn write_then_read_at_offset() {
    let mut flash = VirtualFlash::new(8, 256, config(false));
    flash.write(3, 100, &[1, 2, 3, 4]).unwrap();
    let mut buf = vec![0u8; 4];
    flash.read(3, 100, &mut buf);
    assert_eq!(buf, vec![1, 2, 3, 4]);
    // neighbouring bytes keep the erased value
    let mut around = vec![0u8; 6];
    flash.read(3, 99, &mut around);
    assert_eq!(around, vec![0xFF, 1, 2, 3, 4, 0xFF]);
}

#[test]
fn erase_fills_page_with_ff() {
    let mut flash = VirtualFlash::new(4, 4096, config(false));
    flash.write(1, 0, &[0u8; 64]).unwrap();
    flash.erase(1);
    let mut buf = vec![0u8; 4096];
    flash.read(1, 0, &mut buf);
    assert!(buf.iter().all(|&b| b == 0xFF));
}

#[test]
fn erase_leaves_other_pages_untouched() {
    let mut flash = VirtualFlash::new(4, 128, config(false));
    flash.write(0, 0, &[7u8; 16]).unwrap();
    flash.write(2, 0, &[9u8; 16]).unwrap();
    flash.erase(0);
    let mut buf = vec![0u8; 16];
    flash.read(2, 0, &mut buf);
    assert_eq!(buf, vec![9u8; 16]);
}

#[test]
fn enforced_write_rejects_setting_bits() {
    let mut flash = VirtualFlash::new(2, 64, config(true));
    // 0x0F has the high bits cleared; writing 0xF0 afterwards would set them
    flash.write(0, 10, &[0x0F]).unwrap();
    let err = flash.write(0, 10, &[0xF0]).unwrap_err();
    assert_eq!(err, StorageError::FlashBitViolation);
    // the device is untouched by the refused write
    let mut buf = vec![0u8; 1];
    flash.read(0, 10, &mut buf);
    assert_eq!(buf, vec![0x0F]);
    // clearing more bits is always allowed
    flash.write(0, 10, &[0x0D]).unwrap();
    flash.read(0, 10, &mut buf);
    assert_eq!(buf, vec![0x0D]);
}

#[test]
fn identical_write_succeeds_after_erase() {
    let mut flash = VirtualFlash::new(2, 64, config(true));
    flash.write(0, 10, &[0x0F]).unwrap();
    assert!(flash.write(0, 10, &[0xF0]).is_err());
    flash.erase(0);
    flash.write(0, 10, &[0xF0]).unwrap();
    let mut buf = vec![0u8; 1];
    flash.read(0, 10, &mut buf);
    assert_eq!(buf, vec![0xF0]);
}

#[test]
fn unenforced_write_may_set_bits() {
    let mut flash = VirtualFlash::new(2, 64, config(false));
    flash.write(0, 0, &[0x00]).unwrap();
    flash.write(0, 0, &[0xFF]).unwrap();
    let mut buf = vec![0u8; 1];
    flash.read(0, 0, &mut buf);
    assert_eq!(buf, vec![0xFF]);
}

#[test]
fn open_or_create_preserves_matching_image() {
    let mut prior = vec![0xFFu8; 2 * 32];
    prior[5] = 0xAB;
    let flash = VirtualFlash::open_or_create(Some(prior.clone()), 2, 32, config(false));
    assert_eq!(flash.image(), &prior);
}

#[test]
fn open_or_create_reinitializes_on_size_mismatch() {
    let prior = vec![0x00u8; 17];
    let flash = VirtualFlash::open_or_create(Some(prior), 2, 32, config(false));
    assert_eq!(flash.image().len(), 64);
    assert!(flash.image().iter().all(|&b| b == 0xFF));
}

#[test]
fn open_or_create_without_prior_image_is_erased() {
    let flash = VirtualFlash::open_or_create(None, 3, 16, config(false));
    assert_eq!(flash.image().len(), 48);
    assert!(flash.image().iter().all(|&b| b == 0xFF));
}

#[test]
fn ensure_bounds_checks_page_and_range() {
    let flash = VirtualFlash::new(4, 4096, config(false));
    assert!(flash.ensure_bounds(0, 0, 4096));
    assert!(flash.ensure_bounds(3, 4095, 1));
    assert!(!flash.ensure_bounds(4, 0, 1));
    assert!(!flash.ensure_bounds(0, 4096, 1));
    assert!(!flash.ensure_bounds(0, 4090, 7));
}
