use vstd::prelude::*;

verus! {

/// The messages that the scripts of a scene send each other. `P` is the type
/// of a position in the scene.
#[derive(Debug)]
pub enum Message<P> {
    /// Place one sensor at each of these positions.
    AddSensors { sensors: Vec<P> },
    /// Switch ray casting on or off.
    RaycastStateChange { on: bool },
    /// Spawn the playing field.
    SpawnField {},
}

/// The positions of the sensors that a message asks for, if it asks for any.
pub open spec fn requested_sensors<P>(message: Message<P>) -> Option<Seq<P>> {
    match message {
        Message::AddSensors { sensors } => Some(sensors@),
        _ => None,
    }
}

/// A request to add sensors asks for every one of its sensors, in order,
/// however many there are; no other message asks for any.
pub proof fn lemma_requested_sensors_are_all_sensors<P>(message: Message<P>)
    ensures
        message matches Message::AddSensors { sensors } ==> requested_sensors(message) == Some(
            sensors@,
        ),
        !(message is AddSensors) ==> requested_sensors(message) is None,
{
}

/// The sensors that a script placing sensors takes from a message: those of
/// an `AddSensors` message, and none from any other message.
pub fn added_sensors<P>(message: &Message<P>) -> (sensors: Option<&Vec<P>>)
    ensures
        match sensors {
            Some(v) => requested_sensors(*message) == Some(v@),
            None => requested_sensors(*message) is None,
        },
        match *message {
            Message::AddSensors { sensors: requested } => sensors matches Some(v) && v@
                == requested@,
            _ => sensors is None,
        },
{
    match message {
        Message::AddSensors { sensors } => Some(sensors),
        _ => None,
    }
}

/// The messages that the command script sends, in order, when the scene
/// starts: a request for one sensor at the script's own position (`origin`
/// where its node has no position), then a request to switch ray casting on.
pub fn start_commands<P>(node_position: Option<P>, origin: P) -> (commands: Vec<Message<P>>)
    ensures
        commands@.len() == 2,
        requested_sensors(commands@[0]) == Some(
            seq![
                match node_position {
                    Some(p) => p,
                    None => origin,
                },
            ],
        ),
        commands@[0] matches Message::AddSensors { sensors } && sensors@ == seq![
            match node_position {
                Some(p) => p,
                None => origin,
            },
        ],
        commands@[1] == (Message::<P>::RaycastStateChange { on: true }),
{
    let position = match node_position {
        Some(p) => p,
        None => origin,
    };
    let mut sensors: Vec<P> = Vec::new();
    sensors.push(position);
    let mut commands: Vec<Message<P>> = Vec::new();
    commands.push(Message::AddSensors { sensors });
    commands.push(Message::RaycastStateChange { on: true });
    commands
}

} // verus!
