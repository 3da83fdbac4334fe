# thermostat-linker

A daemon that links pump-based floor heating zones to the thermostat of a heat pump, through
Home Assistant. At every poll it

1. reads all entities,
2. decides for each zone thermostat whether it calls for heat, by a margin around its setpoint,
3. switches each zone's pump on while one of its thermostats calls,
4. drives the main thermostat: the hold, then mode `heat` and a setpoint above what it measures;
   or, where no zone calls, a setpoint of what it measures and then mode `off`.

A command that the device did not apply is sent again at a later poll, at most once per interval.

## Layout

`src/` is the library, verified with Verus. It holds what is decided at each poll, and what is
accepted before the first one:

| Module | What it decides |
| --- | --- |
| `config` | when a configuration is valid, and which file it is read from |
| `token` | which sources are asked for the access token, and what counts as one |
| `home_assistant` | URLs, service calls, and what statuses mean |
| `entity`, `json` | what the attributes of an entity say |
| `glob`, `states` | which entities a pattern selects |
| `throttle`, `writes` | whether a command is sent now |
| `zones` | which zones call for heat, and what is done about their pumps |
| `heat_pump` | which commands the main thermostat is sent, and in which order |
| `degrees`, `table`, `text` | temperatures in order, tables keyed by strings, text |

The proof functions named `law_...` state what holds of the library as a whole.

`app/` is the program around it: arguments, files, HTTP, the arithmetic on floating point
temperatures, and the loop of polls. That loop joins the dry-run switch of the command line with
that of the configuration, sleeps between polls, goes on after a poll that could not be read, and
stops after one poll where that is asked for. Temperatures enter the library as the bits of double precision
numbers, which it compares but does not add.

`tests/` runs the library on concrete values.
