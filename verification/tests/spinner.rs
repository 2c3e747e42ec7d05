use tinyharness_ui::tui::layout::Rect;
use tinyharness_ui::tui::screen::Screen;
use tinyharness_ui::tui::widget::Widget;
use tinyharness_ui::tui::widgets::spinner::SpinnerWidget;

#[test]
fn test_spinner_new() {
    let spinner = SpinnerWidget::new("Thinking");
    assert!(!spinner.is_active());
    assert_eq!(spinner.label(), "Thinking");
}

#[test]
fn test_spinner_start_stop() {
    let mut spinner = SpinnerWidget::new("Thinking");
    assert!(!spinner.is_active());

    spinner.start();
    assert!(spinner.is_active());

    spinner.stop();
    assert!(!spinner.is_active());
}

#[test]
fn test_spinner_tick() {
    let mut spinner = SpinnerWidget::new("Thinking");
    spinner.start();
    assert_eq!(spinner.frame(), 0);

    spinner.tick();
    assert_eq!(spinner.frame(), 1);

    // Wrap around
    for _ in 0..9 {
        spinner.tick();
    }
    assert_eq!(spinner.frame(), 0); // Wrapped to start
}

#[test]
fn test_spinner_tick_not_active() {
    let mut spinner = SpinnerWidget::new("Thinking");
    // Not active — tick should not advance
    spinner.tick();
    assert_eq!(spinner.frame(), 0);
}

#[test]
fn test_spinner_render() {
    let mut screen = Screen::new(80, 24);
    let mut spinner = SpinnerWidget::new("Thinking");
    spinner.start();

    let area = Rect::new(0, 0, 20, 1);
    spinner.render(area, &mut screen);

    // Should have rendered the spinner character
    assert_ne!(screen.get(0, 0).unwrap().char, ' ');
}

#[test]
fn test_spinner_render_not_active() {
    let mut screen = Screen::new(80, 24);
    let mut spinner = SpinnerWidget::new("Thinking");
    // Not active — should render nothing

    let area = Rect::new(0, 0, 20, 1);
    spinner.render(area, &mut screen);

    // Should not have rendered anything
    assert_eq!(screen.get(0, 0).unwrap().char, ' ');
}


#[test]
fn ten_ticks_return_to_frame_and_label_clipped() {
    let mut spinner = SpinnerWidget::new("Working");
    spinner.start();
    spinner.tick();
    spinner.tick();
    for _ in 0..10 {
        spinner.tick();
    }
    assert_eq!(spinner.frame(), 2);
    spinner.set_label("Hi");
    let mut screen = Screen::new(10, 1);
    spinner.render(Rect::new(0, 0, 4, 1), &mut screen);
    assert_eq!(screen.get(0, 0).unwrap().char, '⠹');
    assert_eq!(screen.get(0, 2).unwrap().char, 'H');
    assert_eq!(screen.get(0, 3).unwrap().char, 'i');
    assert_eq!(screen.get(0, 4).unwrap().char, ' ');
}
