//! What the ship does with what its machine puts out: which port drives
//! which device, and when a device obeys.

use crate::zpu::Output;
use vstd::prelude::*;

verus! {

/// What a device of the ship is to do.
#[derive(Debug, Clone, Copy, PartialEq, Eq, Structural)]
pub enum Order {
    /// Start the engine; the ship then has full power.
    EngineOn,
    /// Stop the engine; the ship then has no power.
    EngineOff,
    /// Turn the turret to so many tenths of a radian to the one side.
    TurnLeft(u32),
    /// Turn the turret to so many tenths of a radian to the other side.
    TurnRight(u32),
    /// Switch the turret on, which draws power.
    TurretOn,
    /// Switch the turret off.
    TurretOff,
    /// Close the door.
    DoorClose,
    /// Open the door.
    DoorOpen,
    /// Nothing.
    Nothing,
}

/// The order that an output of the machine gives, on a ship that has power
/// or has none, and whose turret is on or off.
///
/// Port 2 drives the engine, which starts on a value above zero and stops
/// on zero. Ports 3 and 4 turn the turret, which obeys while the ship has
/// power and the turret is on. Port 5 switches the turret, on where the
/// value is above zero and the ship has power, and else off. Port 6 drives
/// the door, which obeys while the ship has power, and closes on a value
/// above zero and opens on zero. Every other port gives no order.
pub open spec fn order(output: Output, powered: bool, turret_on: bool) -> Order {
    if output.port == 2 {
        if output.data > 0 {
            Order::EngineOn
        } else {
            Order::EngineOff
        }
    } else if output.port == 3 {
        if powered && turret_on {
            Order::TurnLeft(output.data)
        } else {
            Order::Nothing
        }
    } else if output.port == 4 {
        if powered && turret_on {
            Order::TurnRight(output.data)
        } else {
            Order::Nothing
        }
    } else if output.port == 5 {
        if output.data > 0 && powered {
            Order::TurretOn
        } else {
            Order::TurretOff
        }
    } else if output.port == 6 {
        if !powered {
            Order::Nothing
        } else if output.data > 0 {
            Order::DoorClose
        } else {
            Order::DoorOpen
        }
    } else {
        Order::Nothing
    }
}

/// The order that an output of the machine gives.
pub fn order_of(output: Output, powered: bool, turret_on: bool) -> (given: Order)
    ensures
        given == order(output, powered, turret_on),
{
    match output.port {
        2 => if output.data > 0 {
            Order::EngineOn
        } else {
            Order::EngineOff
        },
        3 => if powered && turret_on {
            Order::TurnLeft(output.data)
        } else {
            Order::Nothing
        },
        4 => if powered && turret_on {
            Order::TurnRight(output.data)
        } else {
            Order::Nothing
        },
        5 => if output.data > 0 && powered {
            Order::TurretOn
        } else {
            Order::TurretOff
        },
        6 => if !powered {
            Order::Nothing
        } else if output.data > 0 {
            Order::DoorClose
        } else {
            Order::DoorOpen
        },
        _ => Order::Nothing,
    }
}

} // verus!
