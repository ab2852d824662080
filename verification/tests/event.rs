use danubia::common::{ID, ID_UNINITIALISED};
use danubia::event::{Handler, Message, Observer, Response, Subject};
use std::cell::{Cell, RefCell};
use std::rc::{Rc, Weak};

#[derive(Debug)]
struct Thing {
    handler: Weak<RefCell<Handler<Thing>>>,
    data: Cell<u8>,
    observer_id: Cell<ID>,
}

impl Thing {
    fn new(handler: Weak<RefCell<Handler<Thing>>>) -> Self {
        let data: Cell<u8> = Cell::new(0);
        let observer_id: Cell<ID> = Cell::new(ID_UNINITIALISED);

        Self { handler, data, observer_id }
    }
}

impl Observer for Thing {
    fn respond(&self, message: Message) -> Option<Response> {
        match message {
            Message::TestAdd => {
                let mut data: u8 = self.data.get();

                data += 1;
                self.data.replace(data);

                Some(Response::TestAdd(data))
            }
            Message::TestSubtract => {
                let mut data: u8 = self.data.get();

                data -= 1;
                self.data.replace(data);

                Some(Response::TestSubtract(data))
            }
        }
    }

    fn set_observer_id(&self, observer_id: ID) -> bool {
        if self.observer_id.get() < ID_UNINITIALISED {
            false
        } else {
            self.observer_id.replace(observer_id);

            true
        }
    }
}

impl Subject for Thing {
    fn notify(&self, message: Message) -> Vec<Response> {
        self.handler.upgrade().unwrap().borrow().notify(message)
    }
}

fn generate_handler() -> Rc<RefCell<Handler<Thing>>> {
    let handler = Handler::new();
    let handler = RefCell::new(handler);

    Rc::new(handler)
}

fn generate_things(handler: Rc<RefCell<Handler<Thing>>>) -> (Rc<Thing>, Rc<Thing>) {
    let thing_0 = Thing::new(Rc::downgrade(&handler));
    let thing_0 = Rc::new(thing_0);
    let thing_1 = Thing::new(Rc::downgrade(&handler));
    let thing_1 = Rc::new(thing_1);

    (thing_0, thing_1)
}

#[test]
fn handler_register() {
    let handler = generate_handler();
    let (thing_0, thing_1) = generate_things(Rc::clone(&handler));

    // Test empty register
    assert_eq!(handler.borrow_mut().register(thing_0), 0);
    assert!(handler.borrow().contains_observer(&0));
    // Test non-empty register
    assert_eq!(handler.borrow_mut().register(thing_1), 1);
    assert!(handler.borrow().contains_observer(&1));
    assert_eq!(handler.borrow().get_id(), 2);
}

#[test]
fn handler_deregister() {
    let handler = generate_handler();
    let (thing_0, _) = generate_things(Rc::clone(&handler));

    // Test empty deregister
    assert!(!handler.borrow_mut().deregister(&0));
    // Test non-empty deregister
    handler.borrow_mut().register(thing_0);
    assert!(handler.borrow_mut().deregister(&0));
    assert!(!handler.borrow().contains_observer(&0));
}

#[test]
fn handler_subscribe() {
    let handler = generate_handler();
    let (thing_0, thing_1) = generate_things(Rc::clone(&handler));

    handler.borrow_mut().register(thing_0);
    handler.borrow_mut().register(thing_1);
    // Test empty subscribe
    assert!(handler.borrow_mut().subscribe(0, 0));
    assert_eq!(handler.borrow().get_message_observers().get_first(&0).unwrap().len(), 1);
    // Test non-empty subscribe
    assert!(handler.borrow_mut().subscribe(1, 0));
    assert_eq!(handler.borrow().get_message_observers().get_first(&0).unwrap().len(), 2);
    // Test conflicting subscribe
    assert!(!handler.borrow_mut().subscribe(1, 0));
    assert_eq!(handler.borrow().get_message_observers().get_first(&0).unwrap().len(), 2);
    // Test multiple subscribe
    assert!(handler.borrow_mut().subscribe(1, 1));
    assert_eq!(handler.borrow().get_message_observers().get_first(&0).unwrap().len(), 2);
    assert_eq!(handler.borrow().get_message_observers().get_first(&1).unwrap().len(), 1);
}

#[test]
fn handler_unsubscribe() {
    let handler = generate_handler();
    let (thing_0, thing_1) = generate_things(Rc::clone(&handler));

    handler.borrow_mut().register(thing_0);
    handler.borrow_mut().register(thing_1);
    // Test empty unsubscribe
    assert!(!handler.borrow_mut().unsubscribe(&0, &0));
    // Test non-empty unsubscribe
    handler.borrow_mut().subscribe(0, 0);
    assert!(handler.borrow_mut().unsubscribe(&0, &0));
    assert!(handler.borrow().get_message_observers().get_first(&0).unwrap().is_empty());
    // Test conflicting unsubscribe
    handler.borrow_mut().subscribe(0, 0);
    handler.borrow_mut().subscribe(1, 0);
    assert!(handler.borrow_mut().unsubscribe(&0, &0));
    assert_eq!(handler.borrow().get_message_observers().get_first(&0).unwrap().len(), 1);
    // Test multiple unsubscribe
    handler.borrow_mut().subscribe(0, 0);
    handler.borrow_mut().subscribe(0, 1);
    assert!(handler.borrow_mut().unsubscribe(&0, &0));
    assert_eq!(handler.borrow().get_message_observers().get_first(&0).unwrap().len(), 1);
    assert_eq!(handler.borrow().get_message_observers().get_first(&1).unwrap().len(), 1);
}

#[test]
fn handler_notify() {
    let handler = generate_handler();
    let (thing_0, thing_1) = generate_things(Rc::clone(&handler));

    handler.borrow_mut().register(thing_0);
    handler.borrow_mut().register(thing_1);
    // Test empty notify
    let responses: Vec<Response> = handler.borrow().notify(Message::TestAdd);
    assert!(responses.is_empty());
    // Test non-empty notify
    handler.borrow_mut().subscribe(0, 0);
    let responses: Vec<Response> = handler.borrow().notify(Message::TestAdd);
    assert_eq!(responses.len(), 1);
    assert!(responses.contains(&Response::TestAdd(1)));
    assert!(matches!(responses[0], Response::TestAdd(1)));
    // Test conflicting notify
    handler.borrow_mut().subscribe(0, 1);
    let responses: Vec<Response> = handler.borrow().notify(Message::TestSubtract);
    assert_eq!(responses.len(), 1);
    assert!(responses.contains(&Response::TestSubtract(0)));
    // Test multiple notify
    handler.borrow_mut().subscribe(1, 0);
    let responses: Vec<Response> = handler.borrow().notify(Message::TestAdd);
    assert_eq!(responses.len(), 2);
    assert!(responses.contains(&Response::TestAdd(2)));
    assert!(responses.contains(&Response::TestAdd(1)));
}
