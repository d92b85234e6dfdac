# bevy_luau

Luau scripting for Bevy. Scripts declare component types, systems and observers; components that
scripts declare live in the world as plain bytes, and appear in scripts as tables.

`src/` is the verified library: where the fields of a component lie, how script values are stored
in them and read back, how strings are interned, what scripts declare while they load, and the
order in which scripts run, tables are written back and commands are carried out. Handles of the
script engine (strings, tables, functions, userdata) are type parameters there; floating-point
numbers are held as their bits, and entities and component types as numbers. Alignments and byte
order are those of the machine; what is proved holds for either byte order.

`app/` is the plugin: it owns the script engine and the world, converts values, and carries out
the steps that the library returns.
