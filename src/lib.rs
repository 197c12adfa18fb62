//! A CHIP-8 virtual machine: memory and registers, a monochrome display with
//! XOR sprite drawing, and an interpreter that executes one instruction per step.
pub mod cpu;
pub mod gpu;
pub mod instructions;
pub mod memory;
