use devix_core::editor::modal_slot::ModalSlot;

#[derive(Copy, Clone, Debug, PartialEq, Eq)]
enum ModalKind {
    Palette,
    Picker,
}

struct PalettePane;

#[test]
fn open_replaces_previous_and_returns_old_kind() {
    let mut slot: ModalSlot<PalettePane, ModalKind> = ModalSlot::new();
    assert!(slot.is_none());
    let prev = slot.open(PalettePane, ModalKind::Palette);
    assert!(prev.is_none());
    assert!(slot.is_some());
    assert_eq!(slot.kind(), Some(ModalKind::Palette));

    let prev = slot.open(PalettePane, ModalKind::Picker);
    assert_eq!(prev, Some(ModalKind::Palette));
    assert_eq!(slot.kind(), Some(ModalKind::Picker));
    assert!(slot.as_ref().is_some());
}

#[test]
fn dismiss_returns_kind_and_clears() {
    let mut slot: ModalSlot<PalettePane, ModalKind> = ModalSlot::new();
    slot.open(PalettePane, ModalKind::Palette);
    let kind = slot.dismiss();
    assert_eq!(kind, Some(ModalKind::Palette));
    assert!(slot.is_none());
    assert!(slot.dismiss().is_none(), "second dismiss is a no-op");
}
