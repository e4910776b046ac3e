use device_core::device::{Config, Device, Type};
use device_core::factory::{create_with, deliver, select_handler, DeviceFactory, FactoryError};
use device_core::handler::{HandlerEntry, ProtocolHandler};
use device_core::registry::ProtocolRegistry;
use std::collections::HashMap;
use std::sync::atomic::{AtomicUsize, Ordering};
use std::sync::Arc;

struct Lamp {
    id: String,
    name: String,
    state: HashMap<String, String>,
}

impl Device for Lamp {
    fn get_id(&self) -> &str {
        &self.id
    }

    fn get_name(&self) -> &str {
        &self.name
    }

    fn get_state(&self) -> HashMap<String, String> {
        self.state.clone()
    }

    fn set_state(&mut self, state: HashMap<String, String>) {
        self.state = state;
    }

    fn send_cmd(&mut self, command: &str, _parameters: Option<HashMap<String, String>>) {
        self.state.insert("last".to_string(), command.to_string());
    }
}

/// Builds lamps named after itself, or fails with its own message, and
/// counts how often it was asked.
struct Maker {
    name: String,
    priority: u8,
    protocols: Vec<String>,
    failure: Option<String>,
    asked: AtomicUsize,
}

impl ProtocolHandler for Maker {
    fn name(&self) -> String {
        self.name.clone()
    }

    fn priority(&self) -> u8 {
        self.priority
    }

    fn supported_protocols(&self) -> Vec<String> {
        self.protocols.clone()
    }

    fn create_device(&self, config: &Config) -> Result<Box<dyn Device>, String> {
        self.asked.fetch_add(1, Ordering::SeqCst);
        match &self.failure {
            Some(text) => Err(text.clone()),
            None => Ok(Box::new(Lamp {
                id: config.id.clone(),
                name: format!("{} by {}", config.name, self.name),
                state: HashMap::new(),
            })),
        }
    }

    fn send_cmd(
        &self,
        device: &mut dyn Device,
        cmd: &str,
        params: Option<HashMap<String, String>>,
    ) -> Result<(), String> {
        device.send_cmd(cmd, params);
        Ok(())
    }

    fn initialize(&mut self) -> Result<(), String> {
        Ok(())
    }
}

fn strings(items: &[&str]) -> Vec<String> {
    items.iter().map(|p| p.to_string()).collect()
}

fn maker(name: &str, priority: u8, protocols: &[&str]) -> Arc<Maker> {
    Arc::new(Maker {
        name: name.to_string(),
        priority,
        protocols: strings(protocols),
        failure: None,
        asked: AtomicUsize::new(0),
    })
}

fn failing(name: &str, priority: u8, protocols: &[&str], text: &str) -> Arc<Maker> {
    Arc::new(Maker {
        name: name.to_string(),
        priority,
        protocols: strings(protocols),
        failure: Some(text.to_string()),
        asked: AtomicUsize::new(0),
    })
}

fn config(name: &str, protocols: &[&str], preferred: Option<&str>) -> Config {
    Config {
        id: "dev-1".to_string(),
        name: name.to_string(),
        device_type: Type::Switch,
        connection_details: HashMap::new(),
        supported_protocols: strings(protocols),
        preferred_handler: preferred.map(|p| p.to_string()),
    }
}

fn factory_of(handlers: &[&Arc<Maker>]) -> DeviceFactory<Maker> {
    let mut registry: ProtocolRegistry<Maker> = ProtocolRegistry::new();
    for h in handlers.iter() {
        registry.register(Arc::clone(h));
    }
    DeviceFactory::new(Arc::new(registry))
}

fn made_name(made: Result<Box<dyn Device>, FactoryError>) -> String {
    match made {
        Ok(device) => device.get_name().to_string(),
        Err(error) => panic!("no device: {}", error.message()),
    }
}

fn failure(made: Result<Box<dyn Device>, FactoryError>) -> FactoryError {
    match made {
        Ok(device) => panic!("a device was made: {}", device.get_name()),
        Err(error) => error,
    }
}

#[test]
fn factory_keeps_the_registry_it_was_given() {
    let mut registry: ProtocolRegistry<Maker> = ProtocolRegistry::new();
    registry.register(maker("H1", 1, &["wifi"]));
    let shared = Arc::new(registry);
    let factory = DeviceFactory::new(Arc::clone(&shared));
    assert!(Arc::ptr_eq(&factory.protocol_registry, &shared));
    assert_eq!(factory.protocol_registry.get_handlers("wifi").unwrap().len(), 1);
}

#[test]
fn no_preference_takes_the_head_of_the_first_served_protocol() {
    let h1 = maker("H1", 5, &["zigbee"]);
    let h2 = maker("H2", 10, &["zigbee", "wifi"]);
    let factory = factory_of(&[&h1, &h2]);
    let made = factory.register(&config("lamp", &["wifi", "zigbee"], None));
    assert_eq!(made_name(made), "lamp by H2");
    assert_eq!(h2.asked.load(Ordering::SeqCst), 1);
    assert_eq!(h1.asked.load(Ordering::SeqCst), 0);
}

#[test]
fn protocols_are_tried_in_the_order_of_the_configuration() {
    let low = maker("low", 1, &["wifi"]);
    let high = maker("high", 200, &["zigbee"]);
    let factory = factory_of(&[&low, &high]);
    let made = factory.register(&config("lamp", &["lora", "wifi", "zigbee"], None));
    assert_eq!(made_name(made), "lamp by low");
    let made = factory.register(&config("lamp", &["zigbee", "wifi"], None));
    assert_eq!(made_name(made), "lamp by high");
}

#[test]
fn head_is_the_highest_priority_and_among_equals_the_first_registered() {
    let a = maker("a", 5, &["wifi"]);
    let b = maker("b", 9, &["wifi"]);
    let c = maker("c", 9, &["wifi"]);
    let factory = factory_of(&[&a, &b, &c]);
    let made = factory.register(&config("lamp", &["wifi"], None));
    assert_eq!(made_name(made), "lamp by b");
}

#[test]
fn preferred_handler_is_taken_whatever_its_priority() {
    let h1 = maker("H1", 5, &["zigbee"]);
    let h2 = maker("H2", 10, &["zigbee", "wifi"]);
    let factory = factory_of(&[&h1, &h2]);
    let made = factory.register(&config("lamp", &["zigbee"], Some("H1")));
    assert_eq!(made_name(made), "lamp by H1");
    assert_eq!(h2.asked.load(Ordering::SeqCst), 0);
}

#[test]
fn missing_preferred_handler_is_reported_with_the_protocol() {
    let h1 = maker("H1", 5, &["zigbee"]);
    let h2 = maker("H2", 10, &["zigbee", "wifi"]);
    let factory = factory_of(&[&h1, &h2]);
    let made = factory.register(&config("lamp", &["zigbee"], Some("H3")));
    assert_eq!(
        failure(made),
        FactoryError::HandlerNotFound("H3".to_string(), "zigbee".to_string())
    );
    assert_eq!(h1.asked.load(Ordering::SeqCst), 0);
    assert_eq!(h2.asked.load(Ordering::SeqCst), 0);
}

#[test]
fn missing_preferred_handler_fails_even_if_a_later_protocol_has_it() {
    let x = maker("X", 5, &["zigbee"]);
    let y = maker("Y", 1, &["wifi"]);
    let factory = factory_of(&[&x, &y]);
    let made = factory.register(&config("lamp", &["lora", "wifi", "zigbee"], Some("X")));
    assert_eq!(failure(made), FactoryError::HandlerNotFound("X".to_string(), "wifi".to_string()));
    assert_eq!(x.asked.load(Ordering::SeqCst), 0);
    assert_eq!(y.asked.load(Ordering::SeqCst), 0);
}

#[test]
fn no_served_protocol_is_reported_with_the_device_name() {
    let h1 = maker("H1", 5, &["zigbee"]);
    let factory = factory_of(&[&h1]);
    let made = factory.register(&config("porch light", &["wifi", "lora"], None));
    assert_eq!(failure(made), FactoryError::NoCompatibleHandler("porch light".to_string()));
    let made = factory.register(&config("porch light", &["wifi", "lora"], Some("H1")));
    assert_eq!(failure(made), FactoryError::NoCompatibleHandler("porch light".to_string()));
    assert_eq!(h1.asked.load(Ordering::SeqCst), 0);
}

#[test]
fn empty_protocol_list_has_no_compatible_handler() {
    let h1 = maker("H1", 5, &["zigbee"]);
    let factory = factory_of(&[&h1]);
    let made = factory.register(&config("lamp", &[], None));
    assert_eq!(failure(made), FactoryError::NoCompatibleHandler("lamp".to_string()));
}

#[test]
fn empty_registry_has_no_compatible_handler() {
    let factory = factory_of(&[]);
    let made = factory.register(&config("lamp", &["wifi"], Some("H1")));
    assert_eq!(failure(made), FactoryError::NoCompatibleHandler("lamp".to_string()));
}

#[test]
fn handler_failure_is_passed_on_and_nothing_else_is_tried() {
    let broken = failing("broken", 9, &["wifi"], "radio is off");
    let spare = maker("spare", 1, &["wifi", "zigbee"]);
    let factory = factory_of(&[&broken, &spare]);
    let made = factory.register(&config("lamp", &["wifi", "zigbee"], None));
    assert_eq!(failure(made), FactoryError::Handler("radio is off".to_string()));
    assert_eq!(broken.asked.load(Ordering::SeqCst), 1);
    assert_eq!(spare.asked.load(Ordering::SeqCst), 0);
    let made = factory.register(&config("lamp", &["wifi", "zigbee"], Some("broken")));
    assert_eq!(failure(made), FactoryError::Handler("radio is off".to_string()));
    assert_eq!(broken.asked.load(Ordering::SeqCst), 2);
    assert_eq!(spare.asked.load(Ordering::SeqCst), 0);
}

#[test]
fn first_handler_of_the_preferred_name_is_taken() {
    let one = maker("twin", 9, &["wifi"]);
    let two = maker("twin", 9, &["wifi"]);
    let top = maker("top", 10, &["wifi"]);
    let factory = factory_of(&[&one, &two, &top]);
    let made = factory.register(&config("lamp", &["wifi"], Some("twin")));
    assert_eq!(made_name(made), "lamp by twin");
    assert_eq!(one.asked.load(Ordering::SeqCst), 1);
    assert_eq!(two.asked.load(Ordering::SeqCst), 0);
}

#[test]
fn preferred_name_is_the_name_recorded_at_registration() {
    let mut registry: ProtocolRegistry<Maker> = ProtocolRegistry::new();
    let real = maker("real", 1, &["wifi"]);
    registry.register_entry(
        HandlerEntry { name: "alias".to_string(), priority: 1, handler: Arc::clone(&real) },
        &strings(&["wifi"]),
    );
    let factory = DeviceFactory::new(Arc::new(registry));
    let made = factory.register(&config("lamp", &["wifi"], Some("alias")));
    assert_eq!(made_name(made), "lamp by real");
    let made = factory.register(&config("lamp", &["wifi"], Some("real")));
    assert_eq!(failure(made), FactoryError::HandlerNotFound("real".to_string(), "wifi".to_string()));
}

#[test]
fn selecting_calls_no_handler() {
    let h1 = maker("H1", 5, &["zigbee"]);
    let h2 = maker("H2", 10, &["zigbee", "wifi"]);
    let mut registry: ProtocolRegistry<Maker> = ProtocolRegistry::new();
    registry.register(Arc::clone(&h1));
    registry.register(Arc::clone(&h2));
    let chosen = select_handler(&registry, &config("lamp", &["wifi", "zigbee"], None));
    let entry = chosen.ok().unwrap();
    assert_eq!(entry.name, "H2");
    assert_eq!(entry.priority, 10);
    assert!(Arc::ptr_eq(&entry.handler, &h2));
    assert_eq!(h2.asked.load(Ordering::SeqCst), 0);
    let chosen = select_handler(&registry, &config("lamp", &["zigbee"], Some("H3")));
    assert_eq!(
        chosen.err().unwrap(),
        FactoryError::HandlerNotFound("H3".to_string(), "zigbee".to_string())
    );
    let chosen = select_handler(&registry, &config("lamp", &["lora"], None));
    assert_eq!(chosen.err().unwrap(), FactoryError::NoCompatibleHandler("lamp".to_string()));
}

#[test]
fn create_with_asks_the_handler_of_the_entry() {
    let good = maker("good", 1, &["wifi"]);
    let entry = HandlerEntry { name: "good".to_string(), priority: 1, handler: Arc::clone(&good) };
    let made = create_with(&entry, &config("lamp", &["wifi"], None));
    assert_eq!(made_name(made), "lamp by good");
    assert_eq!(good.asked.load(Ordering::SeqCst), 1);
    let bad = failing("bad", 1, &["wifi"], "no power");
    let entry = HandlerEntry { name: "bad".to_string(), priority: 1, handler: bad };
    let made = create_with(&entry, &config("lamp", &["wifi"], None));
    assert_eq!(failure(made), FactoryError::Handler("no power".to_string()));
}

#[test]
fn deliver_keeps_the_device_and_wraps_the_message() {
    let lamp: Box<dyn Device> =
        Box::new(Lamp { id: "7".to_string(), name: "seven".to_string(), state: HashMap::new() });
    let made = deliver(Ok(lamp));
    assert_eq!(made.ok().unwrap().get_id(), "7");
    let made: Result<Box<dyn Device>, FactoryError> = deliver(Err("broken".to_string()));
    assert_eq!(failure(made), FactoryError::Handler("broken".to_string()));
    let made: Result<Box<dyn Device>, FactoryError> = deliver(Err(String::new()));
    assert_eq!(failure(made), FactoryError::Handler(String::new()));
}

#[test]
fn messages_name_what_was_missing() {
    let error = FactoryError::HandlerNotFound("H3".to_string(), "zigbee".to_string());
    assert_eq!(error.message(), "Preferred handler 'H3' not found for protocol: zigbee");
    let error = FactoryError::NoCompatibleHandler("porch light".to_string());
    assert_eq!(error.message(), "No compatible protocol handler found for device: porch light");
    let error = FactoryError::Handler("radio is off".to_string());
    assert_eq!(error.message(), "radio is off");
    let error = FactoryError::HandlerNotFound(String::new(), String::new());
    assert_eq!(error.message(), "Preferred handler '' not found for protocol: ");
}

#[test]
fn factory_over_handlers_of_any_kind() {
    let mut registry: ProtocolRegistry<dyn ProtocolHandler> = ProtocolRegistry::new();
    let h: Arc<dyn ProtocolHandler> = maker("any", 1, &["wifi"]);
    registry.register(h);
    let factory = DeviceFactory::new(Arc::new(registry));
    let mut device = factory.register(&config("lamp", &["wifi"], None)).ok().unwrap();
    assert_eq!(device.get_id(), "dev-1");
    assert_eq!(device.get_name(), "lamp by any");
    device.send_cmd("on", None);
    assert_eq!(device.get_state().get("last"), Some(&"on".to_string()));
}
